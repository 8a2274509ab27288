//! Error types of every compilation stage.
use vstd::prelude::*;
use crate::lexer::LexError;
use crate::text::push_char;

verus! {

/// A parse error: a message about `len` bytes at `offset` of `src`.
#[derive(Debug, Clone)]
pub struct ParseError {
    pub src: String,
    pub offset: usize,
    pub len: usize,
    pub message: String,
}

/// A semantic error.
#[derive(Debug, Clone)]
pub struct SemanticError {
    pub message: String,
}

/// A type error.
#[derive(Debug, Clone)]
pub struct TypeError {
    pub message: String,
}

/// A code generation error.
#[derive(Debug, Clone)]
pub struct CodegenError {
    pub message: String,
}

/// A failure to set up the compilation target.
#[derive(Debug, Clone)]
pub struct TargetError {
    pub message: String,
    pub triple: Option<String>,
}

impl TargetError {
    /// Target initialization failed, for the given triple if known.
    pub fn target_init_failed(message: String, triple: Option<&str>) -> (r: TargetError)
        ensures
            r.message == message,
            r.triple is Some <==> triple is Some,
            r.triple matches Some(t) ==> t@ == triple->0@,
    {
        let triple = match triple {
            Some(s) => Some(s.to_owned()),
            None => None,
        };
        TargetError { message, triple }
    }

    /// Looking up the target for `triple` failed.
    pub fn target_lookup_failed(triple: String, message: String) -> (r: TargetError)
        ensures
            r.message == message,
            r.triple == Some(triple),
    {
        TargetError { triple: Some(triple), message }
    }

    /// Creating the target machine for `triple` failed.
    pub fn target_machine_failed(triple: String, message: String) -> (r: TargetError)
        ensures
            r.message == message,
            r.triple == Some(triple),
    {
        TargetError { triple: Some(triple), message }
    }
}

/// A failure to link the final executable.
#[derive(Debug, Clone)]
pub struct LinkError {
    pub message: String,
    pub details: Option<String>,
}

pub open spec fn linker_not_found_message(linker: Seq<char>) -> Seq<char> {
    seq!['l', 'i', 'n', 'k', 'e', 'r', ' ', '\''] + linker + seq!['\'', ' ', 'n', 'o', 't', ' ', 'f', 'o',
        'u', 'n', 'd']
}

pub open spec fn linking_failed_message(output: Seq<char>) -> Seq<char> {
    seq!['l', 'i', 'n', 'k', 'i', 'n', 'g', ' ', 'f', 'a', 'i', 'l', 'e', 'd', ' ', 'f', 'o', 'r',
        ' ', 'o', 'u', 't', 'p', 'u', 't', ':', ' '] + output
}

fn append_chars(s: &mut String, cs: &[char])
    ensures
        final(s)@ == old(s)@ + cs@,
{
    let mut i: usize = 0;
    while i < cs.len()
        invariant
            i <= cs@.len(),
            s@ == old(s)@ + cs@.take(i as int),
        decreases cs@.len() - i,
    {
        push_char(s, cs[i]);
        assert(cs@.take(i + 1) == cs@.take(i as int).push(cs@[i as int]));
        i = i + 1;
    }
    assert(cs@.take(cs@.len() as int) == cs@);
}

impl LinkError {
    /// The linker named `linker` was not found.
    pub fn linker_not_found(linker: String) -> (r: LinkError)
        ensures
            r.message@ == linker_not_found_message(linker@),
            r.details is None,
    {
        let mut m = String::new();
        append_chars(&mut m, &['l', 'i', 'n', 'k', 'e', 'r', ' ', '\'']);
        let cs = crate::text::str_chars(linker.as_str());
        append_chars(&mut m, cs.as_slice());
        append_chars(&mut m, &['\'', ' ', 'n', 'o', 't', ' ', 'f', 'o', 'u', 'n', 'd']);
        proof {
            assert(['l', 'i', 'n', 'k', 'e', 'r', ' ', '\'']@ == seq!['l', 'i', 'n', 'k', 'e', 'r', ' ', '\'']);
            assert(['\'', ' ', 'n', 'o', 't', ' ', 'f', 'o', 'u', 'n', 'd']@ == seq!['\'', ' ', 'n', 'o', 't', ' ', 'f', 'o', 'u', 'n', 'd']);
        }
        LinkError { message: m, details: None }
    }

    /// Linking `output` failed, with the linker's own report if any.
    pub fn linking_failed(output: String, details: Option<String>) -> (r: LinkError)
        ensures
            r.message@ == linking_failed_message(output@),
            r.details == details,
    {
        let mut m = String::new();
        let pre = ['l', 'i', 'n', 'k', 'i', 'n', 'g', ' ', 'f', 'a', 'i', 'l', 'e', 'd', ' ', 'f',
            'o', 'r', ' ', 'o', 'u', 't', 'p', 'u', 't', ':', ' '];
        append_chars(&mut m, &pre);
        let cs = crate::text::str_chars(output.as_str());
        append_chars(&mut m, cs.as_slice());
        assert(pre@ == seq!['l', 'i', 'n', 'k', 'i', 'n', 'g', ' ', 'f', 'a', 'i', 'l', 'e', 'd', ' ', 'f', 'o', 'r',
            ' ', 'o', 'u', 't', 'p', 'u', 't', ':', ' ']);
        LinkError { message: m, details }
    }
}

/// An error of any compilation stage.
#[derive(Debug)]
pub enum CompilerError {
    Lexer(LexError),
    Parse(ParseError),
    Semantic(String),
    Type(String),
    Codegen(String),
    Target(TargetError),
    Link(LinkError),
    Config(String),
    Process(String),
    IrEmissionError { message: String },
}

impl CompilerError {
    /// A semantic error with the given message.
    pub fn semantic(message: String) -> (r: CompilerError)
        ensures
            r == CompilerError::Semantic(message),
    {
        CompilerError::Semantic(message)
    }

    /// A code generation error with the given message.
    pub fn codegen(message: String) -> (r: CompilerError)
        ensures
            r == CompilerError::Codegen(message),
    {
        CompilerError::Codegen(message)
    }

    /// A project configuration error with the given message.
    pub fn config(message: String) -> (r: CompilerError)
        ensures
            r == CompilerError::Config(message),
    {
        CompilerError::Config(message)
    }
}

/// The text an error is displayed as.
pub open spec fn compiler_error_text(e: CompilerError) -> Seq<char> {
    match e {
        CompilerError::Lexer(_) => "lexer error"@,
        CompilerError::Parse(p) => "Parse error: "@ + p.message@,
        CompilerError::Semantic(m) => "semantic error: "@ + m@,
        CompilerError::Type(m) => "type error: "@ + m@,
        CompilerError::Codegen(m) => "code generation error: "@ + m@,
        CompilerError::Target(t) => "target error: "@ + t.message@,
        CompilerError::Link(l) => "link error: "@ + l.message@,
        CompilerError::Config(m) => "config error: "@ + m@,
        CompilerError::Process(m) => "process error: "@ + m@,
        CompilerError::IrEmissionError { message } => "IR emission error: "@ + message@,
    }
}

fn with_prefix(prefix: &str, s: &str) -> (r: String)
    ensures
        r@ == prefix@ + s@,
{
    let mut r = String::from_str(prefix);
    r.append(s);
    r
}

impl ParseError {
    /// The error as it is displayed: `Parse error: ` and the message.
    pub fn to_string(&self) -> (r: String)
        ensures
            r@ == "Parse error: "@ + self.message@,
    {
        with_prefix("Parse error: ", self.message.as_str())
    }
}

impl TargetError {
    /// The error as it is displayed: `target error: ` and the message.
    pub fn to_string(&self) -> (r: String)
        ensures
            r@ == "target error: "@ + self.message@,
    {
        with_prefix("target error: ", self.message.as_str())
    }
}

impl LinkError {
    /// The error as it is displayed: `link error: ` and the message.
    pub fn to_string(&self) -> (r: String)
        ensures
            r@ == "link error: "@ + self.message@,
    {
        with_prefix("link error: ", self.message.as_str())
    }
}

impl CompilerError {
    /// The error as it is displayed.
    pub fn to_string(&self) -> (r: String)
        ensures
            r@ == compiler_error_text(*self),
    {
        match self {
            CompilerError::Lexer(_) => String::from_str("lexer error"),
            CompilerError::Parse(p) => p.to_string(),
            CompilerError::Semantic(m) => with_prefix("semantic error: ", m.as_str()),
            CompilerError::Type(m) => with_prefix("type error: ", m.as_str()),
            CompilerError::Codegen(m) => with_prefix("code generation error: ", m.as_str()),
            CompilerError::Target(t) => t.to_string(),
            CompilerError::Link(l) => l.to_string(),
            CompilerError::Config(m) => with_prefix("config error: ", m.as_str()),
            CompilerError::Process(m) => with_prefix("process error: ", m.as_str()),
            CompilerError::IrEmissionError { message } => with_prefix("IR emission error: ", message.as_str()),
        }
    }
}

} // verus!
