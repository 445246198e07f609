//! VM command classifier and driver: recognizes the command word of each
//! line, extracts operands by whitespace position, and drives the
//! assembly emitter over a whole source text.

use vstd::prelude::*;
use vstd::string::*;

use crate::code_writer::{
    arith_lines, call_lines, file_stem, function_lines, init_lines, is_compare_op,
    known_arith_op, known_push_segment, pop_full_lines, push_full_lines, return_lines,
    CodeWriter,
};
use crate::error::{ErrorKind, TranslateError};
use crate::lexer::{preprocess_code, spec_preprocess};
use crate::text::{
    contains_seq, contains_sub, lemma_split_lines_count, nth_field, opt_view, parse_u16,
    spec_parse_u16, split_lines, split_lines_spec, trim, trimmed, views_of, ws_tokens,
};

verus! {

/// One classified VM command, holding the whole trimmed command text.
#[derive(Debug, PartialEq, Eq)]
pub enum Token {
    CArithmetic(String),
    CPush(String),
    CPop(String),
    CLabel(String),
    CGoto(String),
    CIfGoTo(String),
    CFunction(String),
    CReturn(String),
    CCall(String),
    Error,
}

/// The nine command kinds, for stating classification.
pub enum CommandKind {
    Arithmetic,
    Push,
    Pop,
    Label,
    Goto,
    IfGoto,
    Function,
    Return,
    Call,
}

/// The command kind a token carries, none for `Error`.
pub open spec fn token_kind(t: Token) -> Option<CommandKind> {
    match t {
        Token::CArithmetic(_) => Some(CommandKind::Arithmetic),
        Token::CPush(_) => Some(CommandKind::Push),
        Token::CPop(_) => Some(CommandKind::Pop),
        Token::CLabel(_) => Some(CommandKind::Label),
        Token::CGoto(_) => Some(CommandKind::Goto),
        Token::CIfGoTo(_) => Some(CommandKind::IfGoto),
        Token::CFunction(_) => Some(CommandKind::Function),
        Token::CReturn(_) => Some(CommandKind::Return),
        Token::CCall(_) => Some(CommandKind::Call),
        Token::Error => None,
    }
}

/// The command text a token carries.
pub open spec fn token_text(t: Token) -> Seq<char> {
    match t {
        Token::CArithmetic(s) => s@,
        Token::CPush(s) => s@,
        Token::CPop(s) => s@,
        Token::CLabel(s) => s@,
        Token::CGoto(s) => s@,
        Token::CIfGoTo(s) => s@,
        Token::CFunction(s) => s@,
        Token::CReturn(s) => s@,
        Token::CCall(s) => s@,
        Token::Error => Seq::empty(),
    }
}

/// Which command a clean line is, decided by the keywords it contains,
/// checked in this fixed order; a line matching none is dropped. Only the
/// five arithmetic mnemonics `add`, `sub`, `eq`, `lt`, `gt` are
/// recognized here.
pub open spec fn spec_classify(s: Seq<char>) -> Option<CommandKind> {
    if contains_seq(s, "push"@) {
        Some(CommandKind::Push)
    } else if contains_seq(s, "pop"@) {
        Some(CommandKind::Pop)
    } else if contains_seq(s, "add"@) || contains_seq(s, "sub"@) || contains_seq(s, "eq"@)
        || contains_seq(s, "lt"@) || contains_seq(s, "gt"@) {
        Some(CommandKind::Arithmetic)
    } else if contains_seq(s, "label"@) {
        Some(CommandKind::Label)
    } else if contains_seq(s, "goto"@) {
        if contains_seq(s, "if"@) {
            Some(CommandKind::IfGoto)
        } else {
            Some(CommandKind::Goto)
        }
    } else if contains_seq(s, "function"@) {
        Some(CommandKind::Function)
    } else if contains_seq(s, "return"@) {
        Some(CommandKind::Return)
    } else if contains_seq(s, "call"@) {
        Some(CommandKind::Call)
    } else {
        None
    }
}

/// Classifies one clean line, as [`spec_classify`] describes; the token
/// stores the trimmed line.
pub fn classify_line(line: &str) -> (r: Option<Token>)
    ensures
        match r {
            Some(t) => token_kind(t) == spec_classify(line@) && token_kind(t) is Some
                && token_text(t) == trimmed(line@),
            None => spec_classify(line@) is None,
        },
{
    let text = trim(line);
    if contains_sub(line, "push") {
        Some(Token::CPush(text))
    } else if contains_sub(line, "pop") {
        Some(Token::CPop(text))
    } else if contains_sub(line, "add") || contains_sub(line, "sub") || contains_sub(line, "eq")
        || contains_sub(line, "lt") || contains_sub(line, "gt") {
        Some(Token::CArithmetic(text))
    } else if contains_sub(line, "label") {
        Some(Token::CLabel(text))
    } else if contains_sub(line, "goto") {
        if contains_sub(line, "if") {
            Some(Token::CIfGoTo(text))
        } else {
            Some(Token::CGoto(text))
        }
    } else if contains_sub(line, "function") {
        Some(Token::CFunction(text))
    } else if contains_sub(line, "return") {
        Some(Token::CReturn(text))
    } else if contains_sub(line, "call") {
        Some(Token::CCall(text))
    } else {
        None
    }
}

/// The `n`-th whitespace field of a command text, if present.
pub open spec fn nth_tok(s: Seq<char>, n: int) -> Option<Seq<char>> {
    if 0 <= n < ws_tokens(s).len() {
        Some(ws_tokens(s)[n])
    } else {
        None
    }
}

/// The first operand of a command: an arithmetic command is its own
/// operand, a return has none, every other command takes its second
/// whitespace field.
pub open spec fn spec_arg1(t: Token) -> Option<Seq<char>> {
    match t {
        Token::CArithmetic(s) => Some(s@),
        Token::CPush(s) => nth_tok(s@, 1),
        Token::CPop(s) => nth_tok(s@, 1),
        Token::CLabel(s) => nth_tok(s@, 1),
        Token::CGoto(s) => nth_tok(s@, 1),
        Token::CIfGoTo(s) => nth_tok(s@, 1),
        Token::CFunction(s) => nth_tok(s@, 1),
        Token::CCall(s) => nth_tok(s@, 1),
        Token::CReturn(_) => None,
        Token::Error => None,
    }
}

/// The second operand of a command: the third whitespace field of a
/// push, pop, function or call; no other command has one.
pub open spec fn spec_arg2(t: Token) -> Option<Seq<char>> {
    match t {
        Token::CPush(s) => nth_tok(s@, 2),
        Token::CPop(s) => nth_tok(s@, 2),
        Token::CFunction(s) => nth_tok(s@, 2),
        Token::CCall(s) => nth_tok(s@, 2),
        _ => None,
    }
}

/// Extracts the first operand, as [`spec_arg1`] describes.
pub fn arg1(token: &Token) -> (r: Option<String>)
    ensures
        opt_view(r) == spec_arg1(*token),
{
    match token {
        Token::CArithmetic(s) => Some(s.clone()),
        Token::CPush(s) => nth_field(s.as_str(), 1),
        Token::CPop(s) => nth_field(s.as_str(), 1),
        Token::CLabel(s) => nth_field(s.as_str(), 1),
        Token::CGoto(s) => nth_field(s.as_str(), 1),
        Token::CIfGoTo(s) => nth_field(s.as_str(), 1),
        Token::CFunction(s) => nth_field(s.as_str(), 1),
        Token::CCall(s) => nth_field(s.as_str(), 1),
        Token::CReturn(_) => None,
        Token::Error => None,
    }
}

/// Extracts the second operand, as [`spec_arg2`] describes.
pub fn arg2(token: &Token) -> (r: Option<String>)
    ensures
        opt_view(r) == spec_arg2(*token),
{
    match token {
        Token::CPush(s) => nth_field(s.as_str(), 2),
        Token::CPop(s) => nth_field(s.as_str(), 2),
        Token::CFunction(s) => nth_field(s.as_str(), 2),
        Token::CCall(s) => nth_field(s.as_str(), 2),
        _ => None,
    }
}

/// What one classified command emits and how it advances the label
/// counter, or the error that rejects it. A push, pop, function or call
/// whose numeric operand is absent or unreadable is rejected as missing
/// an operand.
pub open spec fn vm_command_lines(
    k: CommandKind,
    text: Seq<char>,
    count: int,
    stem: Seq<char>,
) -> Result<(Seq<Seq<char>>, int), ErrorKind> {
    match k {
        CommandKind::Arithmetic => {
            if known_arith_op(text) {
                Ok(
                    (
                        arith_lines(text, count as nat),
                        count + (if is_compare_op(text) {
                            1int
                        } else {
                            0int
                        }),
                    ),
                )
            } else {
                Err(ErrorKind::UnsupportedOperation)
            }
        },
        CommandKind::Push | CommandKind::Pop => {
            match nth_tok(text, 1) {
                None => Err(ErrorKind::MissingOperand),
                Some(seg) => match nth_tok(text, 2) {
                    None => Err(ErrorKind::MissingOperand),
                    Some(vs) => match spec_parse_u16(vs) {
                        None => Err(ErrorKind::MissingOperand),
                        Some(v) => {
                            if known_push_segment(seg) {
                                Ok(
                                    (
                                        if contains_seq(text, "push"@) {
                                            push_full_lines(seg, v, stem)
                                        } else {
                                            pop_full_lines(seg, v, stem)
                                        },
                                        count,
                                    ),
                                )
                            } else {
                                Err(ErrorKind::UnknownSegment)
                            }
                        },
                    },
                },
            }
        },
        CommandKind::Label => {
            match nth_tok(text, 1) {
                None => Err(ErrorKind::MissingOperand),
                Some(l) => Ok(
                    (seq!["// label "@ + l, seq!['('] + l + seq![')']], count),
                ),
            }
        },
        CommandKind::Goto => {
            match nth_tok(text, 1) {
                None => Err(ErrorKind::MissingOperand),
                Some(l) => Ok(
                    (seq!["// goto "@ + l, seq!['@'] + l, "0;JMP"@], count),
                ),
            }
        },
        CommandKind::IfGoto => {
            match nth_tok(text, 1) {
                None => Err(ErrorKind::MissingOperand),
                Some(l) => Ok(
                    (
                        seq![
                            "// if-goto "@ + l,
                            "@SP"@,
                            "AM=M-1"@,
                            "D=M"@,
                            "A=A-1"@,
                            seq!['@'] + l,
                            "D;JNE"@,
                        ],
                        count,
                    ),
                ),
            }
        },
        CommandKind::Function => {
            match nth_tok(text, 1) {
                None => Err(ErrorKind::MissingOperand),
                Some(f) => match nth_tok(text, 2) {
                    None => Err(ErrorKind::MissingOperand),
                    Some(ns) => match spec_parse_u16(ns) {
                        None => Err(ErrorKind::MissingOperand),
                        Some(n) => Ok((function_lines(f, n, stem), count)),
                    },
                },
            }
        },
        CommandKind::Return => Ok((return_lines(stem), count)),
        CommandKind::Call => {
            match nth_tok(text, 1) {
                None => Err(ErrorKind::MissingOperand),
                Some(f) => match nth_tok(text, 2) {
                    None => Err(ErrorKind::MissingOperand),
                    Some(ns) => match spec_parse_u16(ns) {
                        None => Err(ErrorKind::MissingOperand),
                        Some(n) => Ok((call_lines(f, n, (count + 1) as nat), count + 1)),
                    },
                },
            }
        },
    }
}

/// Drives the emitter over classified commands. Owns the emitter of one
/// translation run.
pub struct Parser {
    pub writer: CodeWriter,
}

impl Parser {
    /// A fresh driver writing into a fresh emitter.
    pub fn new(file_name: &str) -> (r: Parser)
        ensures
            r.writer.label_count == 0,
            r.writer.stem@ == file_stem(file_name@),
            r.writer.lines@ == Seq::<String>::empty(),
    {
        Parser { writer: CodeWriter::new(file_name) }
    }

    /// Emits the bootstrap prologue.
    pub fn write_bootstrap_code(&mut self)
        requires
            old(self).writer.label_count < usize::MAX,
        ensures
            final(self).writer.line_views() == old(self).writer.line_views() + init_lines(
                (old(self).writer.label_count + 1) as nat,
                old(self).writer.stem@,
            ),
            final(self).writer.label_count == old(self).writer.label_count + 1,
            final(self).writer.stem == old(self).writer.stem,
    {
        self.writer.write_init();
    }

    /// Emits the assembly of one classified command, or rejects it with
    /// nothing emitted, as [`vm_command_lines`] describes.
    pub fn parse(&mut self, token: &Token) -> (r: Result<(), ErrorKind>)
        requires
            old(self).writer.label_count < usize::MAX,
        ensures
            final(self).writer.stem == old(self).writer.stem,
            match r {
                Ok(_) => {
                    &&& token_kind(*token) is Some
                    &&& vm_command_lines(
                        token_kind(*token)->0,
                        token_text(*token),
                        old(self).writer.label_count as int,
                        old(self).writer.stem@,
                    ) matches Ok(p)
                    &&& final(self).writer.line_views() == old(self).writer.line_views() + p.0
                    &&& final(self).writer.label_count as int == p.1
                },
                Err(k) => {
                    &&& *final(self) == *old(self)
                    &&& match token_kind(*token) {
                        None => k == ErrorKind::UnknownMnemonic,
                        Some(ck) => vm_command_lines(
                            ck,
                            token_text(*token),
                            old(self).writer.label_count as int,
                            old(self).writer.stem@,
                        ) == Err::<(Seq<Seq<char>>, int), _>(k),
                    }
                },
            },
    {
        match token {
            Token::CArithmetic(command) => self.writer.write_arithmetic(command.as_str()),
            Token::CPush(command) => {
                let segment = match arg1(token) {
                    Some(s) => s,
                    None => {
                        return Err(ErrorKind::MissingOperand);
                    },
                };
                let value_str = match arg2(token) {
                    Some(s) => s,
                    None => {
                        return Err(ErrorKind::MissingOperand);
                    },
                };
                let value = match parse_u16(value_str.as_str()) {
                    Some(v) => v,
                    None => {
                        return Err(ErrorKind::MissingOperand);
                    },
                };
                self.writer.write_push_pop(command.as_str(), segment.as_str(), value)
            },
            Token::CPop(command) => {
                let segment = match arg1(token) {
                    Some(s) => s,
                    None => {
                        return Err(ErrorKind::MissingOperand);
                    },
                };
                let value_str = match arg2(token) {
                    Some(s) => s,
                    None => {
                        return Err(ErrorKind::MissingOperand);
                    },
                };
                let value = match parse_u16(value_str.as_str()) {
                    Some(v) => v,
                    None => {
                        return Err(ErrorKind::MissingOperand);
                    },
                };
                self.writer.write_push_pop(command.as_str(), segment.as_str(), value)
            },
            Token::CLabel(_) => {
                let label = match arg1(token) {
                    Some(s) => s,
                    None => {
                        return Err(ErrorKind::MissingOperand);
                    },
                };
                self.writer.write_label(label.as_str());
                Ok(())
            },
            Token::CGoto(_) => {
                let label = match arg1(token) {
                    Some(s) => s,
                    None => {
                        return Err(ErrorKind::MissingOperand);
                    },
                };
                self.writer.write_goto(label.as_str());
                Ok(())
            },
            Token::CIfGoTo(_) => {
                let label = match arg1(token) {
                    Some(s) => s,
                    None => {
                        return Err(ErrorKind::MissingOperand);
                    },
                };
                self.writer.write_if_goto(label.as_str());
                Ok(())
            },
            Token::CFunction(_) => {
                let function_name = match arg1(token) {
                    Some(s) => s,
                    None => {
                        return Err(ErrorKind::MissingOperand);
                    },
                };
                let num_str = match arg2(token) {
                    Some(s) => s,
                    None => {
                        return Err(ErrorKind::MissingOperand);
                    },
                };
                let num_locals = match parse_u16(num_str.as_str()) {
                    Some(v) => v,
                    None => {
                        return Err(ErrorKind::MissingOperand);
                    },
                };
                self.writer.write_function(function_name.as_str(), num_locals);
                Ok(())
            },
            Token::CReturn(_) => {
                self.writer.write_return();
                Ok(())
            },
            Token::CCall(_) => {
                let function_name = match arg1(token) {
                    Some(s) => s,
                    None => {
                        return Err(ErrorKind::MissingOperand);
                    },
                };
                let num_str = match arg2(token) {
                    Some(s) => s,
                    None => {
                        return Err(ErrorKind::MissingOperand);
                    },
                };
                let no_of_args = match parse_u16(num_str.as_str()) {
                    Some(v) => v,
                    None => {
                        return Err(ErrorKind::MissingOperand);
                    },
                };
                self.writer.write_call(function_name.as_str(), no_of_args);
                Ok(())
            },
            Token::Error => Err(ErrorKind::UnknownMnemonic),
        }
    }
}

/// Translating the cleaned lines of a source in order: a blank or
/// comment line is dropped, a line matching no command word is dropped, a
/// recognized command appends its assembly and advances the label
/// counter, and the first rejected command aborts the run with its line
/// number and text.
pub open spec fn spec_translate_lines(
    ls: Seq<Seq<char>>,
    line_no: int,
    count: int,
    stem: Seq<char>,
    out: Seq<Seq<char>>,
) -> Result<(Seq<Seq<char>>, int), (ErrorKind, int, Seq<char>)>
    decreases ls.len(),
{
    if ls.len() == 0 {
        Ok((out, count))
    } else {
        match spec_preprocess(ls[0]) {
            None => spec_translate_lines(ls.drop_first(), line_no + 1, count, stem, out),
            Some(clean) => match spec_classify(clean) {
                None => spec_translate_lines(ls.drop_first(), line_no + 1, count, stem, out),
                Some(k) => match vm_command_lines(k, trimmed(clean), count, stem) {
                    Err(e) => Err((e, line_no, trimmed(clean))),
                    Ok(p) => spec_translate_lines(
                        ls.drop_first(),
                        line_no + 1,
                        p.1,
                        stem,
                        out + p.0,
                    ),
                },
            },
        }
    }
}

/// The assembly a VM source translates to: the bootstrap prologue, then
/// each command's assembly in source order.
pub open spec fn spec_translate(code: Seq<char>, stem: Seq<char>) -> Result<
    (Seq<Seq<char>>, int),
    (ErrorKind, int, Seq<char>),
> {
    spec_translate_lines(split_lines_spec(code), 1, 1, stem, init_lines(1, stem))
}

/// Translates a whole VM source into assembly lines: bootstrap prologue
/// first, then each recognized command in source order. Fails on the
/// first rejected command, with its 1-based line and its text, and hands
/// out no partial output.
pub fn translate(code: &str, file_name: &str) -> (r: Result<Vec<String>, TranslateError>)
    requires
        code@.len() < usize::MAX,
    ensures
        match r {
            Ok(out) => spec_translate(code@, file_stem(file_name@)) matches Ok(p) && views_of(
                out@,
            ) == p.0,
            Err(e) => spec_translate(code@, file_stem(file_name@)) matches Err(err) && err.0
                == e.kind && err.1 == e.line as int && err.2 == e.text@,
        },
{
    let ghost stem = file_stem(file_name@);
    let mut parser = Parser::new(file_name);
    parser.write_bootstrap_code();
    let lines = split_lines(code);
    proof {
        lemma_split_lines_count(code@);
        assert(views_of(lines@).skip(0) =~= views_of(lines@));
    }
    let mut i: usize = 0;
    while i < lines.len()
        invariant
            parser.writer.stem@ == stem,
            stem == file_stem(file_name@),
            views_of(lines@) == split_lines_spec(code@),
            lines@.len() <= code@.len(),
            code@.len() < usize::MAX,
            i <= lines@.len(),
            parser.writer.label_count <= 1 + i,
            spec_translate(code@, stem) == spec_translate_lines(
                views_of(lines@).skip(i as int),
                i as int + 1,
                parser.writer.label_count as int,
                stem,
                parser.writer.line_views(),
            ),
        decreases lines@.len() - i,
    {
        proof {
            let vs = views_of(lines@);
            assert(vs.skip(i as int)[0] == vs[i as int]);
            assert(vs[i as int] == lines@[i as int]@);
            assert(vs.skip(i as int).drop_first() =~= vs.skip(i as int + 1));
        }
        let line = &lines[i];
        match preprocess_code(line.as_str()) {
            None => {},
            Some(clean) => {
                match classify_line(clean.as_str()) {
                    None => {},
                    Some(t) => {
                        match parser.parse(&t) {
                            Ok(_) => {
                                proof {
                                    assert(parser.writer.label_count <= 2 + i);
                                }
                            },
                            Err(k) => {
                                return Err(
                                    TranslateError {
                                        kind: k,
                                        line: i + 1,
                                        text: trim(clean.as_str()),
                                    },
                                );
                            },
                        }
                    },
                }
            },
        }
        i += 1;
    }
    proof {
        assert(views_of(lines@).skip(i as int) =~= Seq::<Seq<char>>::empty());
    }
    Ok(parser.writer.lines)
}

/// Translation is deterministic: the assembly of a VM source is a
/// function of the source text and the file stem alone, so two runs over
/// identical input yield byte-identical output.
pub proof fn lemma_translate_deterministic(
    code: Seq<char>,
    stem: Seq<char>,
    r1: Result<(Seq<Seq<char>>, int), (ErrorKind, int, Seq<char>)>,
    r2: Result<(Seq<Seq<char>>, int), (ErrorKind, int, Seq<char>)>,
)
    requires
        r1 == spec_translate(code, stem),
        r2 == spec_translate(code, stem),
    ensures
        r1 == r2,
{
}

} // verus!
