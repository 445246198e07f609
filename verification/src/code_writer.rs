//! Assembly emitter: turns each VM command into the Hack assembly that
//! implements stack-machine semantics, segment addressing and the
//! call/return convention. Emitted lines are buffered; callers write them
//! out only after a whole translation succeeds.

use vstd::prelude::*;
use vstd::string::*;

use crate::error::ErrorKind;
use crate::text::{
    contains_seq, contains_sub, dec_rep, find_sub, first_match_idx, lemma_first_match_idx,
    matches_at, str_eq, to_decimal,
};

verus! {

/// The `.` separator of a file name.
pub open spec fn dot() -> Seq<char> {
    seq!['.']
}

/// The part of a file name before its first `.`, used to prefix static
/// symbols.
pub open spec fn file_stem(s: Seq<char>) -> Seq<char> {
    if contains_seq(s, dot()) {
        s.take(first_match_idx(s, dot()))
    } else {
        s
    }
}

/// The lines that push the D register onto the stack.
pub open spec fn push_d_lines() -> Seq<Seq<char>> {
    seq!["@SP"@, "A=M"@, "M=D"@, "@SP"@, "M=M+1"@]
}

/// The lines that pop the top of the stack into the D register.
pub open spec fn pop_d_lines() -> Seq<Seq<char>> {
    seq!["@SP"@, "M=M-1"@, "A=M"@, "D=M"@]
}

/// The lines that point the A register at the base-plus-index cell of a
/// base-pointer segment.
pub open spec fn load_segment_lines(base: Seq<char>, value: u16) -> Seq<Seq<char>> {
    seq![seq!['@'] + base, "D=M"@, seq!['@'] + dec_rep(value as nat), "A=D+A"@]
}

/// The static symbol of one file stem and index.
pub open spec fn static_symbol(stem: Seq<char>, value: u16) -> Seq<char> {
    stem + seq!['.'] + dec_rep(value as nat)
}

/// Whether a segment name is one a push accepts.
pub open spec fn known_push_segment(seg: Seq<char>) -> bool {
    ||| seg == "constant"@
    ||| seg == "local"@
    ||| seg == "this"@
    ||| seg == "that"@
    ||| seg == "argument"@
    ||| seg == "pointer"@
    ||| seg == "temp"@
    ||| seg == "static"@
}

/// The lines that leave the pushed value in the D register.
pub open spec fn push_body_lines(seg: Seq<char>, value: u16, stem: Seq<char>) -> Seq<Seq<char>> {
    if seg == "constant"@ {
        seq![seq!['@'] + dec_rep(value as nat), "D=A"@]
    } else if seg == "local"@ {
        load_segment_lines("LCL"@, value) + seq!["D=M"@]
    } else if seg == "this"@ {
        load_segment_lines("THIS"@, value) + seq!["D=M"@]
    } else if seg == "that"@ {
        load_segment_lines("THAT"@, value) + seq!["D=M"@]
    } else if seg == "argument"@ {
        load_segment_lines("ARG"@, value) + seq!["D=M"@]
    } else if seg == "pointer"@ {
        seq!["@R"@ + dec_rep((3 + value) as nat), "D=M"@]
    } else if seg == "temp"@ {
        seq!["@R"@ + dec_rep((5 + value) as nat), "D=M"@]
    } else {
        seq![seq!['@'] + static_symbol(stem, value), "D=M"@]
    }
}

/// The lines of a whole push command, comment header included.
pub open spec fn push_full_lines(seg: Seq<char>, value: u16, stem: Seq<char>) -> Seq<Seq<char>> {
    seq!["// push "@ + seg + " "@ + dec_rep(value as nat)] + push_body_lines(seg, value, stem)
        + push_d_lines()
}

/// The lines that leave the target address of a pop in the A register.
pub open spec fn pop_addr_lines(seg: Seq<char>, value: u16, stem: Seq<char>) -> Seq<Seq<char>> {
    if seg == "constant"@ {
        seq![seq!['@'] + dec_rep(value as nat)]
    } else if seg == "local"@ {
        load_segment_lines("LCL"@, value)
    } else if seg == "argument"@ {
        load_segment_lines("ARG"@, value)
    } else if seg == "this"@ {
        load_segment_lines("THIS"@, value)
    } else if seg == "that"@ {
        load_segment_lines("THAT"@, value)
    } else if seg == "pointer"@ {
        seq!["@R"@ + dec_rep((3 + value) as nat)]
    } else if seg == "temp"@ {
        seq!["@R"@ + dec_rep((5 + value) as nat)]
    } else {
        seq![seq!['@'] + static_symbol(stem, value)]
    }
}

/// The lines of a whole pop command, comment header included: compute
/// the target address into R13, pop into D, store.
pub open spec fn pop_full_lines(seg: Seq<char>, value: u16, stem: Seq<char>) -> Seq<Seq<char>> {
    seq!["// pop "@ + seg + " "@ + dec_rep(value as nat)] + pop_addr_lines(seg, value, stem)
        + seq!["D=A"@, "@R13"@, "M=D"@] + pop_d_lines() + seq!["@R13"@, "A=M"@, "M=D"@]
}

/// Emits assembly lines and numbers the labels that comparisons and
/// calls generate; owns the per-file static-symbol namespace.
#[derive(Debug)]
pub struct CodeWriter {
    pub label_count: usize,
    pub file_name: String,
    pub stem: String,
    pub lines: Vec<String>,
}

impl CodeWriter {
    /// A fresh emitter for one file: empty buffer, label counter at zero.
    pub fn new(file_name: &str) -> (r: CodeWriter)
        ensures
            r.label_count == 0,
            r.file_name@ == file_name@,
            r.stem@ == file_stem(file_name@),
            r.lines@ == Seq::<String>::empty(),
    {
        proof {
            reveal_strlit(".");
            assert("."@ =~= dot());
        }
        let stem = match find_sub(file_name, ".") {
            Some(i) => {
                proof {
                    lemma_first_match_idx(file_name@, dot(), i as int);
                }
                let piece = file_name.substring_char(0, i);
                proof {
                    assert(piece@ =~= file_stem(file_name@));
                }
                String::from_str(piece)
            },
            None => String::from_str(file_name),
        };
        CodeWriter {
            label_count: 0,
            file_name: String::from_str(file_name),
            stem,
            lines: Vec::new(),
        }
    }

    /// Buffered lines and their views.
    pub open spec fn line_views(&self) -> Seq<Seq<char>> {
        self.lines@.map_values(|s: String| s@)
    }

    /// Appends one line of assembly to the buffer.
    fn write(&mut self, code: &str)
        ensures
            final(self).line_views() == old(self).line_views().push(code@),
            final(self).label_count == old(self).label_count,
            final(self).file_name == old(self).file_name,
            final(self).stem == old(self).stem,
    {
        let owned = String::from_str(code);
        self.lines.push(owned);
        proof {
            assert(self.line_views() =~= old(self).line_views().push(code@));
        }
    }

    /// The emitted lines, in order.
    pub fn get_lines(&self) -> (r: &Vec<String>)
        ensures
            r == self.lines,
    {
        &self.lines
    }

    fn write_increment_stack_pointer(&mut self)
        ensures
            final(self).line_views() == old(self).line_views() + seq!["@SP"@, "M=M+1"@],
            final(self).label_count == old(self).label_count,
            final(self).file_name == old(self).file_name,
            final(self).stem == old(self).stem,
    {
        self.write("@SP");
        self.write("M=M+1");
        proof {
            assert(final(self).line_views() =~= old(self).line_views() + seq!["@SP"@, "M=M+1"@]);
        }
    }

    fn write_decrement_stack_pointer(&mut self)
        ensures
            final(self).line_views() == old(self).line_views() + seq!["@SP"@, "M=M-1"@],
            final(self).label_count == old(self).label_count,
            final(self).file_name == old(self).file_name,
            final(self).stem == old(self).stem,
    {
        self.write("@SP");
        self.write("M=M-1");
        proof {
            assert(final(self).line_views() =~= old(self).line_views() + seq!["@SP"@, "M=M-1"@]);
        }
    }

    fn write_load_stack_pointer_to_a(&mut self)
        ensures
            final(self).line_views() == old(self).line_views() + seq!["@SP"@, "A=M"@],
            final(self).label_count == old(self).label_count,
            final(self).file_name == old(self).file_name,
            final(self).stem == old(self).stem,
    {
        self.write("@SP");
        self.write("A=M");
        proof {
            assert(final(self).line_views() =~= old(self).line_views() + seq!["@SP"@, "A=M"@]);
        }
    }

    fn write_pop_stack_into_d(&mut self)
        ensures
            final(self).line_views() == old(self).line_views() + pop_d_lines(),
            final(self).label_count == old(self).label_count,
            final(self).file_name == old(self).file_name,
            final(self).stem == old(self).stem,
    {
        self.write_decrement_stack_pointer();
        self.write("A=M");
        self.write("D=M");
        proof {
            assert(final(self).line_views() =~= old(self).line_views() + pop_d_lines());
        }
    }

    fn write_push_d_onto_stack(&mut self)
        ensures
            final(self).line_views() == old(self).line_views() + push_d_lines(),
            final(self).label_count == old(self).label_count,
            final(self).file_name == old(self).file_name,
            final(self).stem == old(self).stem,
    {
        self.write_load_stack_pointer_to_a();
        self.write("M=D");
        self.write_increment_stack_pointer();
        proof {
            assert(final(self).line_views() =~= old(self).line_views() + push_d_lines());
        }
    }

    fn write_load_segment(&mut self, segment: &str, value: u16)
        ensures
            final(self).line_views() == old(self).line_views() + load_segment_lines(
                segment@,
                value,
            ),
            final(self).label_count == old(self).label_count,
            final(self).file_name == old(self).file_name,
            final(self).stem == old(self).stem,
    {
        let mut at_base = String::from_str("@");
        at_base.append(segment);
        self.write(at_base.as_str());
        self.write("D=M");
        let mut at_val = String::from_str("@");
        let dec = to_decimal(value as u64);
        at_val.append(dec.as_str());
        self.write(at_val.as_str());
        self.write("A=D+A");
        proof {
            reveal_strlit("@");
            assert("@"@ =~= seq!['@']);
            assert(final(self).line_views() =~= old(self).line_views() + load_segment_lines(
                segment@,
                value,
            ));
        }
    }

    /// Declares a bare label.
    pub fn write_label(&mut self, label: &str)
        ensures
            final(self).line_views() == old(self).line_views() + seq![
                "// label "@ + label@,
                seq!['('] + label@ + seq![')'],
            ],
            final(self).label_count == old(self).label_count,
            final(self).file_name == old(self).file_name,
            final(self).stem == old(self).stem,
    {
        let mut hdr = String::from_str("// label ");
        hdr.append(label);
        self.write(hdr.as_str());
        let mut decl = String::from_str("(");
        decl.append(label);
        decl.append(")");
        self.write(decl.as_str());
        proof {
            reveal_strlit("(");
            reveal_strlit(")");
            assert("("@ =~= seq!['(']);
            assert(")"@ =~= seq![')']);
            assert(final(self).line_views() =~= old(self).line_views() + seq![
                "// label "@ + label@,
                seq!['('] + label@ + seq![')'],
            ]);
        }
    }

    /// Jumps unconditionally to a label.
    pub fn write_goto(&mut self, label: &str)
        ensures
            final(self).line_views() == old(self).line_views() + seq![
                "// goto "@ + label@,
                seq!['@'] + label@,
                "0;JMP"@,
            ],
            final(self).label_count == old(self).label_count,
            final(self).file_name == old(self).file_name,
            final(self).stem == old(self).stem,
    {
        let mut hdr = String::from_str("// goto ");
        hdr.append(label);
        self.write(hdr.as_str());
        let mut at = String::from_str("@");
        at.append(label);
        self.write(at.as_str());
        self.write("0;JMP");
        proof {
            reveal_strlit("@");
            assert("@"@ =~= seq!['@']);
            assert(final(self).line_views() =~= old(self).line_views() + seq![
                "// goto "@ + label@,
                seq!['@'] + label@,
                "0;JMP"@,
            ]);
        }
    }

    /// Pops the top of the stack and jumps to a label when it is
    /// nonzero.
    pub fn write_if_goto(&mut self, label: &str)
        ensures
            final(self).line_views() == old(self).line_views() + seq![
                "// if-goto "@ + label@,
                "@SP"@,
                "AM=M-1"@,
                "D=M"@,
                "A=A-1"@,
                seq!['@'] + label@,
                "D;JNE"@,
            ],
            final(self).label_count == old(self).label_count,
            final(self).file_name == old(self).file_name,
            final(self).stem == old(self).stem,
    {
        let mut hdr = String::from_str("// if-goto ");
        hdr.append(label);
        self.write(hdr.as_str());
        self.write("@SP");
        self.write("AM=M-1");
        self.write("D=M");
        self.write("A=A-1");
        let mut at = String::from_str("@");
        at.append(label);
        self.write(at.as_str());
        self.write("D;JNE");
        proof {
            reveal_strlit("@");
            assert("@"@ =~= seq!['@']);
            assert(final(self).line_views() =~= old(self).line_views() + seq![
                "// if-goto "@ + label@,
                "@SP"@,
                "AM=M-1"@,
                "D=M"@,
                "A=A-1"@,
                seq!['@'] + label@,
                "D;JNE"@,
            ]);
        }
    }
}

/// The comparison ops that consume a generated label pair.
pub open spec fn is_compare_op(op: Seq<char>) -> bool {
    op == "eq"@ || op == "gt"@ || op == "lt"@
}

/// The nine arithmetic/logical operations the emitter supports.
pub open spec fn known_arith_op(op: Seq<char>) -> bool {
    ||| op == "add"@
    ||| op == "sub"@
    ||| op == "and"@
    ||| op == "or"@
    ||| op == "not"@
    ||| op == "neg"@
    ||| is_compare_op(op)
}

/// The lines of one comparison: compute (second-from-top − top), branch
/// through the freshly numbered label pair to leave all-ones (true) or
/// zero (false) on top.
pub open spec fn compare_lines(jmp: Seq<char>, c: nat) -> Seq<Seq<char>> {
    pop_d_lines() + seq!["@SP"@, "M=M-1"@, "@SP"@, "A=M"@, "D=M-D"@, "@LABEL"@ + dec_rep(c),
        "D;"@ + jmp, "@SP"@, "A=M"@, "M=0"@, "@ENDLABEL"@ + dec_rep(c), "0;JMP"@, "(LABEL"@
        + dec_rep(c) + seq![')'], "@SP"@, "A=M"@, "M=-1"@, "(ENDLABEL"@ + dec_rep(c) + seq![')'],
        "@SP"@, "M=M+1"@]
}

/// The lines of one arithmetic/logical command, comment header included;
/// `c` is the label counter a comparison consumes.
pub open spec fn arith_lines(op: Seq<char>, c: nat) -> Seq<Seq<char>> {
    let hdr = seq!["// "@ + op];
    if op == "add"@ {
        hdr + pop_d_lines() + seq!["@SP"@, "M=M-1"@, "@SP"@, "A=M"@, "M=D+M"@, "@SP"@, "M=M+1"@]
    } else if op == "sub"@ {
        hdr + pop_d_lines() + seq!["@SP"@, "M=M-1"@, "@SP"@, "A=M"@, "M=M-D"@, "@SP"@, "M=M+1"@]
    } else if op == "and"@ {
        hdr + pop_d_lines() + seq!["@SP"@, "M=M-1"@, "@SP"@, "A=M"@, "M=D&M"@, "@SP"@, "M=M+1"@]
    } else if op == "or"@ {
        hdr + pop_d_lines() + seq!["@SP"@, "M=M-1"@, "@SP"@, "A=M"@, "M=D|M"@, "@SP"@, "M=M+1"@]
    } else if op == "not"@ {
        hdr + seq!["@SP"@, "M=M-1"@, "@SP"@, "A=M"@, "M=!M"@, "@SP"@, "M=M+1"@]
    } else if op == "neg"@ {
        hdr + seq!["@SP"@, "M=M-1"@, "@SP"@, "A=M"@, "M=-M"@, "@SP"@, "M=M+1"@]
    } else if op == "eq"@ {
        hdr + compare_lines("JEQ"@, c)
    } else if op == "gt"@ {
        hdr + compare_lines("JGT"@, c)
    } else {
        hdr + compare_lines("JLT"@, c)
    }
}

/// The lines that push one caller register (its pointer value) onto the
/// stack while a call frame is saved.
pub open spec fn save_pointer_lines(seg: Seq<char>) -> Seq<Seq<char>> {
    seq![seq!['@'] + seg, "D=M"@] + push_d_lines()
}

/// The lines of one call: push the fresh return label, the caller's LCL,
/// ARG, THIS and THAT pointer values, reposition ARG and LCL for the
/// callee, jump, and declare the return label; `c` is the fresh label
/// number.
pub open spec fn call_lines(f: Seq<char>, n: u16, c: nat) -> Seq<Seq<char>> {
    seq!["// call function "@ + f, "@RETURN_LABEL"@ + dec_rep(c), "D=A"@] + push_d_lines()
        + save_pointer_lines("LCL"@) + save_pointer_lines("ARG"@)
        + save_pointer_lines("THIS"@) + save_pointer_lines("THAT"@) + seq!["@SP"@,
        "D=M"@, "@5"@, "D=D-A"@, seq!['@'] + dec_rep(n as nat), "D=D-A"@, "@ARG"@, "M=D"@, "@SP"@,
        "D=M"@, "@LCL"@, "M=D"@, seq!['@'] + f, "0;JMP"@, "(RETURN_LABEL"@ + dec_rep(c)
        + seq![')']]
}

/// The lines that restore one saved caller register while walking the
/// frame backward from the saved LCL in R11.
pub open spec fn pre_frame_lines(seg: Seq<char>) -> Seq<Seq<char>> {
    seq!["// pre-frame "@ + seg, "@R11"@, "D=M-1"@, "AM=D"@, "D=M"@, seq!['@'] + seg, "M=D"@]
}

/// The lines of one return: save LCL in R11 and the return address in
/// R12, pop the return value into the caller's ARG slot, reposition the
/// stack pointer, restore THAT, THIS, ARG, LCL, and jump through R12.
pub open spec fn return_lines(stem: Seq<char>) -> Seq<Seq<char>> {
    seq!["// return"@, "@LCL"@, "D=M"@, "@R11"@, "M=D"@, "@5"@, "A=D-A"@, "D=M"@, "@R12"@, "M=D"@]
        + pop_full_lines("argument"@, 0, stem) + seq!["@ARG"@, "D=M"@, "@SP"@, "M=D+1"@]
        + pre_frame_lines("THAT"@) + pre_frame_lines("THIS"@) + pre_frame_lines("ARG"@)
        + pre_frame_lines("LCL"@) + seq!["@R12"@, "A=M"@, "0;JMP"@]
}

/// `n` pushed zero constants, one per declared local.
pub open spec fn repeat_push_zero(n: nat, stem: Seq<char>) -> Seq<Seq<char>>
    decreases n,
{
    if n == 0 {
        Seq::empty()
    } else {
        repeat_push_zero((n - 1) as nat, stem) + push_full_lines("constant"@, 0, stem)
    }
}

/// The lines of one function declaration: its entry label, then one
/// pushed zero per local.
pub open spec fn function_lines(f: Seq<char>, n: u16, stem: Seq<char>) -> Seq<Seq<char>> {
    seq!["// function "@ + f + " "@ + dec_rep(n as nat), seq!['('] + f + seq![')']]
        + repeat_push_zero(n as nat, stem)
}

/// The bootstrap prologue: set the stack pointer to 256, then call
/// `Sys.init` with no arguments; `c` is the fresh label number the call
/// consumes.
pub open spec fn init_lines(c: nat, stem: Seq<char>) -> Seq<Seq<char>> {
    seq!["// Bootstrap Code"@, "@256"@, "D=A"@, "@SP"@, "M=D"@] + call_lines("Sys.init"@, 0, c) + seq![
        "// Bootstrap code ends"@,
        Seq::<char>::empty(),
    ]
}

proof fn lemma_op_literals()
    ensures
        !is_compare_op("add"@),
        !is_compare_op("sub"@),
        !is_compare_op("and"@),
        !is_compare_op("or"@),
        !is_compare_op("not"@),
        !is_compare_op("neg"@),
{
    reveal_strlit("add");
    reveal_strlit("sub");
    reveal_strlit("and");
    reveal_strlit("or");
    reveal_strlit("not");
    reveal_strlit("neg");
    reveal_strlit("eq");
    reveal_strlit("gt");
    reveal_strlit("lt");
    assert("add"@.len() == 3 && "sub"@.len() == 3 && "and"@.len() == 3 && "or"@.len() == 2
        && "not"@.len() == 3 && "neg"@.len() == 3 && "eq"@.len() == 2 && "gt"@.len() == 2
        && "lt"@.len() == 2);
    assert("or"@[0] == 'o' && "eq"@[0] == 'e' && "gt"@[0] == 'g' && "lt"@[0] == 'l');
    assert("or"@ != "eq"@ && "or"@ != "gt"@ && "or"@ != "lt"@);
}

/// Two comparisons at different counter values never share a generated
/// label: the emitter advances the counter once per comparison (see
/// [`CodeWriter::write_arithmetic`]), so the label pairs of two
/// independent comparisons in one file are disjoint.
pub proof fn lemma_compare_labels_distinct(c1: nat, c2: nat)
    requires
        c1 != c2,
    ensures
        "LABEL"@ + dec_rep(c1) != "LABEL"@ + dec_rep(c2),
        "ENDLABEL"@ + dec_rep(c1) != "ENDLABEL"@ + dec_rep(c2),
        "LABEL"@ + dec_rep(c1) != "ENDLABEL"@ + dec_rep(c2),
{
    if "LABEL"@ + dec_rep(c1) == "LABEL"@ + dec_rep(c2) {
        crate::text::lemma_append_cancel_left("LABEL"@, dec_rep(c1), dec_rep(c2));
        crate::text::lemma_dec_rep_injective(c1, c2);
    }
    if "ENDLABEL"@ + dec_rep(c1) == "ENDLABEL"@ + dec_rep(c2) {
        crate::text::lemma_append_cancel_left("ENDLABEL"@, dec_rep(c1), dec_rep(c2));
        crate::text::lemma_dec_rep_injective(c1, c2);
    }
    reveal_strlit("LABEL");
    reveal_strlit("ENDLABEL");
    assert("LABEL"@.len() == 5 && "ENDLABEL"@.len() == 8);
    assert("LABEL"@[0] == 'L' && "ENDLABEL"@[0] == 'E');
    if "LABEL"@ + dec_rep(c1) == "ENDLABEL"@ + dec_rep(c2) {
        assert(("LABEL"@ + dec_rep(c1))[0] == 'L');
        assert(("ENDLABEL"@ + dec_rep(c2))[0] == 'E');
    }
}

/// Calls at different counter values never share a generated return
/// label (see [`CodeWriter::write_call`]).
pub proof fn lemma_return_labels_distinct(c1: nat, c2: nat)
    requires
        c1 != c2,
    ensures
        "RETURN_LABEL"@ + dec_rep(c1) != "RETURN_LABEL"@ + dec_rep(c2),
{
    if "RETURN_LABEL"@ + dec_rep(c1) == "RETURN_LABEL"@ + dec_rep(c2) {
        crate::text::lemma_append_cancel_left("RETURN_LABEL"@, dec_rep(c1), dec_rep(c2));
        crate::text::lemma_dec_rep_injective(c1, c2);
    }
}

/// Static symbols of two different file stems never collide at the same
/// index: every emitted static reference is `stem.index`, and appending
/// the same `.index` to different stems keeps them apart.
pub proof fn lemma_static_symbols_distinct(stem1: Seq<char>, stem2: Seq<char>, idx: u16)
    requires
        stem1 != stem2,
    ensures
        static_symbol(stem1, idx) != static_symbol(stem2, idx),
{
    let t = seq!['.'] + dec_rep(idx as nat);
    assert(static_symbol(stem1, idx) =~= stem1 + t);
    assert(static_symbol(stem2, idx) =~= stem2 + t);
    if static_symbol(stem1, idx) == static_symbol(stem2, idx) {
        crate::text::lemma_append_cancel_right(stem1, stem2, t);
    }
}

impl CodeWriter {
    /// Emits one push or pop; the segment must be one of the eight known
    /// ones, else nothing is emitted and the command is rejected.
    #[verifier::rlimit(100)]
    pub fn write_push_pop(&mut self, command: &str, segment: &str, value: u16) -> (r: Result<
        (),
        ErrorKind,
    >)
        ensures
            final(self).label_count == old(self).label_count,
            final(self).file_name == old(self).file_name,
            final(self).stem == old(self).stem,
            match r {
                Ok(_) => {
                    &&& known_push_segment(segment@)
                    &&& final(self).line_views() == old(self).line_views() + (
                    if contains_seq(command@, "push"@) {
                        push_full_lines(segment@, value, old(self).stem@)
                    } else {
                        pop_full_lines(segment@, value, old(self).stem@)
                    })
                },
                Err(k) => {
                    &&& k == ErrorKind::UnknownSegment
                    &&& !known_push_segment(segment@)
                    &&& *final(self) == *old(self)
                },
            },
    {
        let is_constant = str_eq(segment, "constant");
        let is_local = str_eq(segment, "local");
        let is_this = str_eq(segment, "this");
        let is_that = str_eq(segment, "that");
        let is_argument = str_eq(segment, "argument");
        let is_pointer = str_eq(segment, "pointer");
        let is_temp = str_eq(segment, "temp");
        let is_static = str_eq(segment, "static");
        if !(is_constant || is_local || is_this || is_that || is_argument || is_pointer || is_temp
            || is_static) {
            return Err(ErrorKind::UnknownSegment);
        }
        proof {
            reveal_strlit("@");
            assert("@"@ =~= seq!['@']);
        }
        let dec_value = to_decimal(value as u64);
        let is_push = contains_sub(command, "push");
        if is_push {
            let mut hdr = String::from_str("// push ");
            hdr.append(segment);
            hdr.append(" ");
            hdr.append(dec_value.as_str());
            self.write(hdr.as_str());
            if is_constant {
                let mut at = String::from_str("@");
                at.append(dec_value.as_str());
                self.write(at.as_str());
                self.write("D=A");
                proof {
                    assert(self.line_views() =~= old(self).line_views() + seq!["// push "@ + segment@ + " "@ + dec_rep(value as nat)] + push_body_lines(segment@, value, old(self).stem@));
                }
            } else if is_local {
                self.write_load_segment("LCL", value);
                self.write("D=M");
                proof {
                    assert(self.line_views() =~= old(self).line_views() + seq!["// push "@ + segment@ + " "@ + dec_rep(value as nat)] + push_body_lines(segment@, value, old(self).stem@));
                }
            } else if is_this {
                self.write_load_segment("THIS", value);
                self.write("D=M");
                proof {
                    assert(self.line_views() =~= old(self).line_views() + seq!["// push "@ + segment@ + " "@ + dec_rep(value as nat)] + push_body_lines(segment@, value, old(self).stem@));
                }
            } else if is_that {
                self.write_load_segment("THAT", value);
                self.write("D=M");
                proof {
                    assert(self.line_views() =~= old(self).line_views() + seq!["// push "@ + segment@ + " "@ + dec_rep(value as nat)] + push_body_lines(segment@, value, old(self).stem@));
                }
            } else if is_argument {
                self.write_load_segment("ARG", value);
                self.write("D=M");
                proof {
                    assert(self.line_views() =~= old(self).line_views() + seq!["// push "@ + segment@ + " "@ + dec_rep(value as nat)] + push_body_lines(segment@, value, old(self).stem@));
                }
            } else if is_pointer {
                let mut at = String::from_str("@R");
                let reg = to_decimal(3u64 + value as u64);
                at.append(reg.as_str());
                self.write(at.as_str());
                self.write("D=M");
                proof {
                    assert(self.line_views() =~= old(self).line_views() + seq!["// push "@ + segment@ + " "@ + dec_rep(value as nat)] + push_body_lines(segment@, value, old(self).stem@));
                }
            } else if is_temp {
                let mut at = String::from_str("@R");
                let reg = to_decimal(5u64 + value as u64);
                at.append(reg.as_str());
                self.write(at.as_str());
                self.write("D=M");
                proof {
                    assert(self.line_views() =~= old(self).line_views() + seq!["// push "@ + segment@ + " "@ + dec_rep(value as nat)] + push_body_lines(segment@, value, old(self).stem@));
                }
            } else {
                let mut at = String::from_str("@");
                at.append(self.stem.as_str());
                at.append(".");
                at.append(dec_value.as_str());
                proof {
                    reveal_strlit(".");
                    assert("."@ =~= seq!['.']);
                }
                proof {
                    assert(at@ =~= seq!['@'] + static_symbol(old(self).stem@, value));
                }
                self.write(at.as_str());
                self.write("D=M");
                proof {
                    assert(push_body_lines(segment@, value, old(self).stem@) == seq![seq!['@'] + static_symbol(old(self).stem@, value), "D=M"@]);
                    assert(self.line_views() =~= old(self).line_views() + seq!["// push "@ + segment@ + " "@ + dec_rep(value as nat)] + push_body_lines(segment@, value, old(self).stem@));
                }
            }
            self.write_push_d_onto_stack();
            proof {
                assert(self.line_views() =~= old(self).line_views() + push_full_lines(
                    segment@,
                    value,
                    old(self).stem@,
                ));
            }
        } else {
            let mut hdr = String::from_str("// pop ");
            hdr.append(segment);
            hdr.append(" ");
            hdr.append(dec_value.as_str());
            self.write(hdr.as_str());
            if is_constant {
                let mut at = String::from_str("@");
                at.append(dec_value.as_str());
                self.write(at.as_str());
                proof {
                    assert(self.line_views() =~= old(self).line_views() + seq!["// pop "@ + segment@ + " "@ + dec_rep(value as nat)] + pop_addr_lines(segment@, value, old(self).stem@));
                }
            } else if is_local {
                self.write_load_segment("LCL", value);
                proof {
                    assert(self.line_views() =~= old(self).line_views() + seq!["// pop "@ + segment@ + " "@ + dec_rep(value as nat)] + pop_addr_lines(segment@, value, old(self).stem@));
                }
            } else if is_argument {
                self.write_load_segment("ARG", value);
                proof {
                    assert(self.line_views() =~= old(self).line_views() + seq!["// pop "@ + segment@ + " "@ + dec_rep(value as nat)] + pop_addr_lines(segment@, value, old(self).stem@));
                }
            } else if is_this {
                self.write_load_segment("THIS", value);
                proof {
                    assert(self.line_views() =~= old(self).line_views() + seq!["// pop "@ + segment@ + " "@ + dec_rep(value as nat)] + pop_addr_lines(segment@, value, old(self).stem@));
                }
            } else if is_that {
                self.write_load_segment("THAT", value);
                proof {
                    assert(self.line_views() =~= old(self).line_views() + seq!["// pop "@ + segment@ + " "@ + dec_rep(value as nat)] + pop_addr_lines(segment@, value, old(self).stem@));
                }
            } else if is_pointer {
                let mut at = String::from_str("@R");
                let reg = to_decimal(3u64 + value as u64);
                at.append(reg.as_str());
                self.write(at.as_str());
                proof {
                    assert(self.line_views() =~= old(self).line_views() + seq!["// pop "@ + segment@ + " "@ + dec_rep(value as nat)] + pop_addr_lines(segment@, value, old(self).stem@));
                }
            } else if is_temp {
                let mut at = String::from_str("@R");
                let reg = to_decimal(5u64 + value as u64);
                at.append(reg.as_str());
                self.write(at.as_str());
                proof {
                    assert(self.line_views() =~= old(self).line_views() + seq!["// pop "@ + segment@ + " "@ + dec_rep(value as nat)] + pop_addr_lines(segment@, value, old(self).stem@));
                }
            } else {
                let mut at = String::from_str("@");
                at.append(self.stem.as_str());
                at.append(".");
                at.append(dec_value.as_str());
                proof {
                    reveal_strlit(".");
                    assert("."@ =~= seq!['.']);
                    assert(at@ =~= seq!['@'] + static_symbol(old(self).stem@, value));
                }
                self.write(at.as_str());
                proof {
                    assert(pop_addr_lines(segment@, value, old(self).stem@) == seq![seq!['@'] + static_symbol(old(self).stem@, value)]);
                    assert(self.line_views() =~= old(self).line_views() + seq!["// pop "@ + segment@ + " "@ + dec_rep(value as nat)] + pop_addr_lines(segment@, value, old(self).stem@));
                }
            }
            self.write("D=A");
            self.write("@R13");
            self.write("M=D");
            self.write_pop_stack_into_d();
            self.write("@R13");
            self.write("A=M");
            self.write("M=D");
            proof {
                assert(self.line_views() =~= old(self).line_views() + pop_full_lines(
                    segment@,
                    value,
                    old(self).stem@,
                ));
            }
        }
        Ok(())
    }

    fn write_save_pointer(&mut self, segment: &str)
        ensures
            final(self).line_views() == old(self).line_views() + save_pointer_lines(segment@),
            final(self).label_count == old(self).label_count,
            final(self).file_name == old(self).file_name,
            final(self).stem == old(self).stem,
    {
        let mut at = String::from_str("@");
        at.append(segment);
        self.write(at.as_str());
        self.write("D=M");
        self.write_push_d_onto_stack();
        proof {
            reveal_strlit("@");
            assert("@"@ =~= seq!['@']);
            assert(self.line_views() =~= old(self).line_views() + save_pointer_lines(segment@));
        }
    }

    fn write_compare_operation(&mut self, jump_command: &str)
        requires
            old(self).label_count < usize::MAX,
        ensures
            final(self).line_views() == old(self).line_views() + compare_lines(
                jump_command@,
                old(self).label_count as nat,
            ),
            final(self).label_count == old(self).label_count + 1,
            final(self).file_name == old(self).file_name,
            final(self).stem == old(self).stem,
    {
        let dec_count = to_decimal(self.label_count as u64);
        self.write_pop_stack_into_d();
        self.write_decrement_stack_pointer();
        self.write_load_stack_pointer_to_a();
        self.write("D=M-D");
        let mut at_label = String::from_str("@LABEL");
        at_label.append(dec_count.as_str());
        self.write(at_label.as_str());
        let mut jump = String::from_str("D;");
        jump.append(jump_command);
        self.write(jump.as_str());
        self.write_load_stack_pointer_to_a();
        self.write("M=0");
        let mut at_end = String::from_str("@ENDLABEL");
        at_end.append(dec_count.as_str());
        self.write(at_end.as_str());
        self.write("0;JMP");
        let mut decl = String::from_str("(LABEL");
        decl.append(dec_count.as_str());
        decl.append(")");
        self.write(decl.as_str());
        self.write_load_stack_pointer_to_a();
        self.write("M=-1");
        let mut decl_end = String::from_str("(ENDLABEL");
        decl_end.append(dec_count.as_str());
        decl_end.append(")");
        self.write(decl_end.as_str());
        self.write_increment_stack_pointer();
        self.label_count = self.label_count + 1;
        proof {
            reveal_strlit(")");
            assert(")"@ =~= seq![')']);
            assert(self.line_views() =~= old(self).line_views() + compare_lines(
                jump_command@,
                old(self).label_count as nat,
            ));
        }
    }

    /// Emits one arithmetic/logical command; an operation outside the
    /// nine known ones is rejected with nothing emitted.
    pub fn write_arithmetic(&mut self, token: &str) -> (r: Result<(), ErrorKind>)
        requires
            old(self).label_count < usize::MAX,
        ensures
            final(self).file_name == old(self).file_name,
            final(self).stem == old(self).stem,
            match r {
                Ok(_) => {
                    &&& known_arith_op(token@)
                    &&& final(self).line_views() == old(self).line_views() + arith_lines(
                        token@,
                        old(self).label_count as nat,
                    )
                    &&& final(self).label_count == old(self).label_count + (
                    if is_compare_op(token@) {
                        1int
                    } else {
                        0int
                    })
                },
                Err(k) => {
                    &&& k == ErrorKind::UnsupportedOperation
                    &&& !known_arith_op(token@)
                    &&& *final(self) == *old(self)
                },
            },
    {
        proof {
            lemma_op_literals();
        }
        let mut hdr = String::from_str("// ");
        hdr.append(token);
        if str_eq(token, "add") {
            self.write(hdr.as_str());
            self.write_pop_stack_into_d();
            self.write_decrement_stack_pointer();
            self.write_load_stack_pointer_to_a();
            self.write("M=D+M");
            self.write_increment_stack_pointer();
            proof {
                assert(self.line_views() =~= old(self).line_views() + arith_lines(
                    token@,
                    old(self).label_count as nat,
                ));
            }
            Ok(())
        } else if str_eq(token, "sub") {
            self.write(hdr.as_str());
            self.write_pop_stack_into_d();
            self.write_decrement_stack_pointer();
            self.write_load_stack_pointer_to_a();
            self.write("M=M-D");
            self.write_increment_stack_pointer();
            proof {
                assert(self.line_views() =~= old(self).line_views() + arith_lines(
                    token@,
                    old(self).label_count as nat,
                ));
            }
            Ok(())
        } else if str_eq(token, "and") {
            self.write(hdr.as_str());
            self.write_pop_stack_into_d();
            self.write_decrement_stack_pointer();
            self.write_load_stack_pointer_to_a();
            self.write("M=D&M");
            self.write_increment_stack_pointer();
            proof {
                assert(self.line_views() =~= old(self).line_views() + arith_lines(
                    token@,
                    old(self).label_count as nat,
                ));
            }
            Ok(())
        } else if str_eq(token, "or") {
            self.write(hdr.as_str());
            self.write_pop_stack_into_d();
            self.write_decrement_stack_pointer();
            self.write_load_stack_pointer_to_a();
            self.write("M=D|M");
            self.write_increment_stack_pointer();
            proof {
                assert(self.line_views() =~= old(self).line_views() + arith_lines(
                    token@,
                    old(self).label_count as nat,
                ));
            }
            Ok(())
        } else if str_eq(token, "not") {
            self.write(hdr.as_str());
            self.write_decrement_stack_pointer();
            self.write_load_stack_pointer_to_a();
            self.write("M=!M");
            self.write_increment_stack_pointer();
            proof {
                assert(self.line_views() =~= old(self).line_views() + arith_lines(
                    token@,
                    old(self).label_count as nat,
                ));
            }
            Ok(())
        } else if str_eq(token, "neg") {
            self.write(hdr.as_str());
            self.write_decrement_stack_pointer();
            self.write_load_stack_pointer_to_a();
            self.write("M=-M");
            self.write_increment_stack_pointer();
            proof {
                assert(self.line_views() =~= old(self).line_views() + arith_lines(
                    token@,
                    old(self).label_count as nat,
                ));
            }
            Ok(())
        } else if str_eq(token, "eq") {
            self.write(hdr.as_str());
            self.write_compare_operation("JEQ");
            proof {
                assert(self.line_views() =~= old(self).line_views() + arith_lines(
                    token@,
                    old(self).label_count as nat,
                ));
            }
            Ok(())
        } else if str_eq(token, "gt") {
            self.write(hdr.as_str());
            self.write_compare_operation("JGT");
            proof {
                assert(self.line_views() =~= old(self).line_views() + arith_lines(
                    token@,
                    old(self).label_count as nat,
                ));
            }
            Ok(())
        } else if str_eq(token, "lt") {
            self.write(hdr.as_str());
            self.write_compare_operation("JLT");
            proof {
                assert(self.line_views() =~= old(self).line_views() + arith_lines(
                    token@,
                    old(self).label_count as nat,
                ));
            }
            Ok(())
        } else {
            Err(ErrorKind::UnsupportedOperation)
        }
    }

    /// Emits one call: a fresh return label is numbered by the advanced
    /// counter, the caller's frame is saved in fixed order, and callee
    /// ARG and LCL are established.
    #[verifier::rlimit(60)]
    pub fn write_call(&mut self, function_name: &str, no_of_args: u16)
        requires
            old(self).label_count < usize::MAX,
        ensures
            final(self).line_views() == old(self).line_views() + call_lines(
                function_name@,
                no_of_args,
                (old(self).label_count + 1) as nat,
            ),
            final(self).label_count == old(self).label_count + 1,
            final(self).file_name == old(self).file_name,
            final(self).stem == old(self).stem,
    {
        proof {
            reveal_strlit("@");
            assert("@"@ =~= seq!['@']);
            reveal_strlit(")");
            assert(")"@ =~= seq![')']);
        }
        self.label_count = self.label_count + 1;
        let dec_count = to_decimal(self.label_count as u64);
        let mut hdr = String::from_str("// call function ");
        hdr.append(function_name);
        self.write(hdr.as_str());
        let mut at_ret = String::from_str("@RETURN_LABEL");
        at_ret.append(dec_count.as_str());
        self.write(at_ret.as_str());
        self.write("D=A");
        self.write_push_d_onto_stack();
        proof {
            reveal_strlit("push");
            assert("push"@.len() == 4);
            assert("push"@.subrange(0, 4) =~= "push"@);
            assert(matches_at("push"@, "push"@, 0));
            assert(contains_seq("push"@, "push"@));
            assert(self.line_views() =~= old(self).line_views() + seq![
                "// call function "@ + function_name@,
                "@RETURN_LABEL"@ + dec_rep((old(self).label_count + 1) as nat),
                "D=A"@,
            ] + push_d_lines());
        }
        let ghost stage1 = self.line_views();
        self.write_save_pointer("LCL");
        self.write_save_pointer("ARG");
        self.write_save_pointer("THIS");
        self.write_save_pointer("THAT");
        proof {
            assert(self.line_views() =~= stage1 + save_pointer_lines("LCL"@)
                + save_pointer_lines("ARG"@) + save_pointer_lines("THIS"@)
                + save_pointer_lines("THAT"@));
        }
        let ghost stage2 = self.line_views();
        self.write("@SP");
        self.write("D=M");
        self.write("@5");
        self.write("D=D-A");
        let mut at_args = String::from_str("@");
        let dec_args = to_decimal(no_of_args as u64);
        at_args.append(dec_args.as_str());
        self.write(at_args.as_str());
        self.write("D=D-A");
        self.write("@ARG");
        self.write("M=D");
        self.write("@SP");
        self.write("D=M");
        self.write("@LCL");
        self.write("M=D");
        let mut at_fn = String::from_str("@");
        at_fn.append(function_name);
        self.write(at_fn.as_str());
        self.write("0;JMP");
        let mut decl = String::from_str("(RETURN_LABEL");
        decl.append(dec_count.as_str());
        decl.append(")");
        self.write(decl.as_str());
        proof {
            assert(self.line_views() =~= stage2 + seq!["@SP"@, "D=M"@, "@5"@, "D=D-A"@, seq!['@']
                + dec_rep(no_of_args as nat), "D=D-A"@, "@ARG"@, "M=D"@, "@SP"@, "D=M"@, "@LCL"@,
                "M=D"@, seq!['@'] + function_name@, "0;JMP"@, "(RETURN_LABEL"@ + dec_rep(
                (old(self).label_count + 1) as nat,
            ) + seq![')']]);
            assert(self.line_views() =~= old(self).line_views() + call_lines(
                function_name@,
                no_of_args,
                (old(self).label_count + 1) as nat,
            ));
        }
    }

    fn write_pre_frame_template(&mut self, segment: &str)
        ensures
            final(self).line_views() == old(self).line_views() + pre_frame_lines(segment@),
            final(self).label_count == old(self).label_count,
            final(self).file_name == old(self).file_name,
            final(self).stem == old(self).stem,
    {
        let mut hdr = String::from_str("// pre-frame ");
        hdr.append(segment);
        self.write(hdr.as_str());
        self.write("@R11");
        self.write("D=M-1");
        self.write("AM=D");
        self.write("D=M");
        let mut at = String::from_str("@");
        at.append(segment);
        self.write(at.as_str());
        self.write("M=D");
        proof {
            reveal_strlit("@");
            assert("@"@ =~= seq!['@']);
            assert(self.line_views() =~= old(self).line_views() + pre_frame_lines(segment@));
        }
    }

    /// Emits one return: pops the return value into the caller's ARG
    /// slot, repositions the stack pointer, restores the caller's
    /// registers and jumps to the saved return address.
    pub fn write_return(&mut self)
        ensures
            final(self).line_views() == old(self).line_views() + return_lines(old(self).stem@),
            final(self).label_count == old(self).label_count,
            final(self).file_name == old(self).file_name,
            final(self).stem == old(self).stem,
    {
        self.write("// return");
        self.write("@LCL");
        self.write("D=M");
        self.write("@R11");
        self.write("M=D");
        self.write("@5");
        self.write("A=D-A");
        self.write("D=M");
        self.write("@R12");
        self.write("M=D");
        match self.write_push_pop("pop", "argument", 0) {
            Ok(_) => {},
            Err(_) => {
                proof {
                    assert(false);
                }
            },
        }
        self.write("@ARG");
        self.write("D=M");
        self.write("@SP");
        self.write("M=D+1");
        self.write_pre_frame_template("THAT");
        self.write_pre_frame_template("THIS");
        self.write_pre_frame_template("ARG");
        self.write_pre_frame_template("LCL");
        self.write("@R12");
        self.write("A=M");
        self.write("0;JMP");
        proof {
            reveal_strlit("push");
            reveal_strlit("pop");
            assert("push"@.len() == 4 && "pop"@.len() == 3);
            assert(!contains_seq("pop"@, "push"@));
            assert(self.line_views() =~= old(self).line_views() + return_lines(old(self).stem@));
        }
    }

    /// Emits one function declaration: its entry label, then one pushed
    /// zero constant per declared local.
    pub fn write_function(&mut self, function_name: &str, num_locals: u16)
        ensures
            final(self).line_views() == old(self).line_views() + function_lines(
                function_name@,
                num_locals,
                old(self).stem@,
            ),
            final(self).label_count == old(self).label_count,
            final(self).file_name == old(self).file_name,
            final(self).stem == old(self).stem,
    {
        let mut hdr = String::from_str("// function ");
        hdr.append(function_name);
        hdr.append(" ");
        let dec_locals = to_decimal(num_locals as u64);
        hdr.append(dec_locals.as_str());
        self.write(hdr.as_str());
        let mut decl = String::from_str("(");
        decl.append(function_name);
        decl.append(")");
        self.write(decl.as_str());
        proof {
            reveal_strlit("(");
            reveal_strlit(")");
            assert("("@ =~= seq!['(']);
            assert(")"@ =~= seq![')']);
        }
        let ghost base = self.line_views();
        let mut k: u16 = 0;
        proof {
            assert(base + repeat_push_zero(0, old(self).stem@) =~= base);
        }
        while k < num_locals
            invariant
                k <= num_locals,
                self.line_views() == base + repeat_push_zero(k as nat, old(self).stem@),
                self.label_count == old(self).label_count,
                self.file_name == old(self).file_name,
                self.stem == old(self).stem,
            decreases num_locals - k,
        {
            match self.write_push_pop("push", "constant", 0) {
                Ok(_) => {},
                Err(_) => {
                    proof {
                        assert(false);
                    }
                },
            }
            k += 1;
            proof {
                reveal_strlit("push");
                assert("push"@.len() == 4);
                assert("push"@.subrange(0, 4) =~= "push"@);
                assert(matches_at("push"@, "push"@, 0));
                assert(contains_seq("push"@, "push"@));
                assert(self.line_views() =~= base + repeat_push_zero(k as nat, old(self).stem@));
            }
        }
        proof {
            assert(self.line_views() =~= old(self).line_views() + function_lines(
                function_name@,
                num_locals,
                old(self).stem@,
            ));
        }
    }

    /// Emits the bootstrap prologue: stack pointer to 256, then a call
    /// of `Sys.init` with no arguments.
    pub fn write_init(&mut self)
        requires
            old(self).label_count < usize::MAX,
        ensures
            final(self).line_views() == old(self).line_views() + init_lines(
                (old(self).label_count + 1) as nat,
                old(self).stem@,
            ),
            final(self).label_count == old(self).label_count + 1,
            final(self).file_name == old(self).file_name,
            final(self).stem == old(self).stem,
    {
        self.write("// Bootstrap Code");
        self.write("@256");
        self.write("D=A");
        self.write("@SP");
        self.write("M=D");
        self.write_call("Sys.init", 0);
        self.write("// Bootstrap code ends");
        self.write("");
        proof {
            reveal_strlit("");
            assert(""@ =~= Seq::<char>::empty());
            assert(self.line_views() =~= old(self).line_views() + init_lines(
                (old(self).label_count + 1) as nat,
                old(self).stem@,
            ));
        }
    }
}

} // verus!
