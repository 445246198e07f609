//! Assembly tokenizer: strips comments and blank lines, then classifies
//! each remaining line as an address instruction, a label declaration or
//! a compute instruction by its first character. No semantic validation
//! happens here; malformed text surfaces later as encoding failures.

use vstd::prelude::*;
use vstd::string::*;

use crate::text::{
    contains_seq, first_match_idx, lemma_first_match_idx, lemma_trimmed_first,
    matches_at, opt_view, split_lines, split_lines_spec, trim, trim_end, trim_start, trimmed,
    views_of, find_sub,
};

verus! {

/// One classified line of assembly source, holding its trimmed raw text.
#[derive(Debug)]
pub enum Instruction {
    LInstruction(String),
    AInstruction(String),
    CInstruction(String),
}

/// The three instruction shapes, for stating classification.
pub enum InstrKind {
    Address,
    Label,
    Compute,
}

/// Shape of a clean line: `@` leads an address instruction, `(` a label
/// declaration, anything else a compute instruction.
pub open spec fn kind_of(s: Seq<char>) -> InstrKind {
    if s.len() > 0 && s[0] == '@' {
        InstrKind::Address
    } else if s.len() > 0 && s[0] == '(' {
        InstrKind::Label
    } else {
        InstrKind::Compute
    }
}

/// A classified instruction together with the 1-based source line it
/// came from, for error reports.
#[derive(Debug)]
pub struct Token {
    pub token: Instruction,
    pub line: usize,
}

impl Token {
    /// Shape of the held instruction.
    pub open spec fn spec_kind(&self) -> InstrKind {
        match self.token {
            Instruction::AInstruction(_) => InstrKind::Address,
            Instruction::LInstruction(_) => InstrKind::Label,
            Instruction::CInstruction(_) => InstrKind::Compute,
        }
    }

    /// Raw text of the held instruction.
    pub open spec fn spec_text(&self) -> Seq<char> {
        match &self.token {
            Instruction::AInstruction(s) => s@,
            Instruction::LInstruction(s) => s@,
            Instruction::CInstruction(s) => s@,
        }
    }

    /// Classifies a clean source line by its first character and stores
    /// its trimmed text.
    pub fn new(clean_line: String, line_number: usize) -> (r: Token)
        ensures
            r.spec_kind() == kind_of(clean_line@),
            r.spec_text() == trimmed(clean_line@),
            r.line == line_number,
    {
        let s = clean_line.as_str();
        let n = s.unicode_len();
        let first_is_at = n > 0 && s.get_char(0) == '@';
        let first_is_paren = n > 0 && s.get_char(0) == '(';
        let text = trim(s);
        if first_is_at {
            Token { token: Instruction::AInstruction(text), line: line_number }
        } else if first_is_paren {
            Token { token: Instruction::LInstruction(text), line: line_number }
        } else {
            Token { token: Instruction::CInstruction(text), line: line_number }
        }
    }

    /// The held instruction.
    pub fn get_token(&self) -> (r: &Instruction)
        ensures
            r == self.token,
    {
        &self.token
    }
}

/// The comment marker `//`.
pub open spec fn comment_marker() -> Seq<char> {
    seq!['/', '/']
}

/// Result of cleaning one raw source line: trim it; a line that is blank
/// or starts with `//` is dropped; a trailing `//` comment is cut off and
/// the rest is trimmed again.
pub open spec fn spec_preprocess(line: Seq<char>) -> Option<Seq<char>> {
    let t = trimmed(line);
    if contains_seq(t, comment_marker()) {
        let i = first_match_idx(t, comment_marker());
        if i == 0 {
            None
        } else {
            Some(trim_end(t.take(i)))
        }
    } else if t.len() == 0 {
        None
    } else {
        Some(t)
    }
}

/// Cleans one raw source line, as [`spec_preprocess`] describes.
pub fn preprocess_code(line: &str) -> (r: Option<String>)
    ensures
        opt_view(r) == spec_preprocess(line@),
{
    let t = trim(line);
    proof {
        reveal_strlit("//");
        assert("//"@ =~= comment_marker());
    }
    match find_sub(t.as_str(), "//") {
        Some(i) => {
            proof {
                lemma_first_match_idx(t@, comment_marker(), i as int);
                assert(matches_at(t@, comment_marker(), i as int));
                assert(contains_seq(t@, comment_marker()));
            }
            if i == 0 {
                None
            } else {
                let prefix = t.as_str().substring_char(0, i);
                let cut = trim(prefix);
                proof {
                    lemma_trimmed_first(line@);
                    assert(prefix@ =~= t@.take(i as int));
                    assert(prefix@[0] == t@[0]);
                    assert(trim_start(prefix@) == prefix@);
                    assert(cut@ == trim_end(t@.take(i as int)));
                }
                Some(cut)
            }
        },
        None => {
            if t.as_str().unicode_len() == 0 {
                None
            } else {
                Some(t)
            }
        },
    }
}

/// The classified token stream of a source text, with 1-based line
/// numbers counted from `first_line`.
pub open spec fn spec_lex_from(lines: Seq<Seq<char>>, first_line: int) -> Seq<
    (InstrKind, Seq<char>, int),
>
    decreases lines.len(),
{
    if lines.len() == 0 {
        Seq::empty()
    } else {
        let rest = spec_lex_from(lines.drop_first(), first_line + 1);
        match spec_preprocess(lines[0]) {
            Some(t) => seq![(kind_of(t), trimmed(t), first_line)] + rest,
            None => rest,
        }
    }
}

/// The classified token stream of a whole source text.
pub open spec fn spec_lex(code: Seq<char>) -> Seq<(InstrKind, Seq<char>, int)> {
    spec_lex_from(split_lines_spec(code), 1)
}

/// Kind, text and source line of each token, in order.
pub open spec fn token_triples(ts: Seq<Token>) -> Seq<(InstrKind, Seq<char>, int)> {
    ts.map_values(|t: Token| (t.spec_kind(), t.spec_text(), t.line as int))
}

/// The token stream of one assembly source text.
pub struct Lexer {
    pub tokens: Vec<Token>,
}

impl Lexer {
    /// Splits the source into lines, drops comments and blanks, and
    /// classifies what remains, in source order.
    pub fn new(code: String) -> (r: Lexer)
        ensures
            token_triples(r.tokens@) == spec_lex(code@),
    {
        let lines = split_lines(code.as_str());
        let mut tokens: Vec<Token> = Vec::new();
        let mut i: usize = 0;
        proof {
            assert(views_of(lines@).skip(0) =~= views_of(lines@));
            assert(token_triples(tokens@) + spec_lex(code@) =~= spec_lex(code@));
        }
        while i < lines.len()
            invariant
                views_of(lines@) == split_lines_spec(code@),
                i <= lines.len(),
                token_triples(tokens@) + spec_lex_from(views_of(lines@).skip(i as int), i as int + 1)
                    == spec_lex(code@),
            decreases lines.len() - i,
        {
            proof {
                let vs = views_of(lines@);
                assert(vs.skip(i as int).drop_first() =~= vs.skip(i as int + 1));
                assert(vs.skip(i as int)[0] == vs[i as int]);
                assert(vs[i as int] == lines@[i as int]@);
            }
            let line = &lines[i];
            match preprocess_code(line.as_str()) {
                Some(clean) => {
                    let t = Token::new(clean, i + 1);
                    tokens.push(t);
                    proof {
                        assert(token_triples(tokens@) =~= token_triples(tokens@.drop_last())
                            + seq![
                            (
                                tokens@.last().spec_kind(),
                                tokens@.last().spec_text(),
                                tokens@.last().line as int,
                            ),
                        ]);
                    }
                },
                None => {},
            }
            i += 1;
        }
        proof {
            assert(views_of(lines@).skip(i as int) =~= Seq::<Seq<char>>::empty());
            assert(token_triples(tokens@) + Seq::<(InstrKind, Seq<char>, int)>::empty()
                =~= token_triples(tokens@));
        }
        Lexer { tokens }
    }

    /// The classified tokens, in source order.
    pub fn get_tokens(&self) -> (r: &Vec<Token>)
        ensures
            r == self.tokens,
    {
        &self.tokens
    }
}

} // verus!
