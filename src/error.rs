use vstd::prelude::*;

verus! {

/// The statements of the format that carry meaning.
#[derive(Debug, Clone, Copy, PartialEq, Eq, Hash, Structural)]
pub enum Statement {
    /// `v`: a vertex position.
    Vertex,
    /// `vn`: a vertex normal.
    Normal,
    /// `vt`: a texture coordinate.
    TexCoord,
    /// `f`: a face.
    Face,
}

/// What went wrong while parsing, with the values that say why.
#[derive(Debug, Clone, Copy, PartialEq, Eq, Hash, Structural)]
pub enum ErrorKind {
    /// A component or an index reference is not a number.
    NumberFormat,
    /// A vector statement has the wrong number of components.
    Dimension { statement: Statement, expected: usize, found: usize },
    /// A known statement has no arguments.
    MissingArguments { statement: Statement },
    /// An index reference is zero or lies outside its attribute buffer.
    Index { reference: i64 },
    /// A face has fewer than three corners.
    DegenerateFace { corners: usize },
    /// A face has more corners than a record can count.
    FaceTooLarge { corners: usize },
    /// A face corner has a form no channel signature carries (`v/vt`, or
    /// more than three parts), or differs in form from the face's first corner.
    CornerSyntax,
    /// The element buffer does not decode into whole records.
    CorruptElementBuffer,
}

/// A parse failure: where it happened, what it is, and the text it is about.
#[derive(Debug, Clone, PartialEq, Hash)]
pub struct ObjParseError {
    /// The line of the input, counted from 1; 0 where no line is concerned.
    pub line: usize,
    pub kind: ErrorKind,
    /// The offending token: the statement tag for errors about a whole
    /// statement, the number or corner for errors about one of those.
    pub token: String,
}

/// The abstract form of a parse failure.
pub struct Failure {
    pub line: int,
    pub kind: ErrorKind,
    pub token: Seq<char>,
}

impl ObjParseError {
    /// The abstract form of this error.
    pub open spec fn view(&self) -> Failure {
        Failure { line: self.line as int, kind: self.kind, token: self.token@ }
    }

    /// The error for an element buffer that does not decode.
    pub fn corrupt() -> (r: Self)
        ensures
            r.line == 0,
            r.kind == ErrorKind::CorruptElementBuffer,
            r.token@.len() == 0,
    {
        ObjParseError { line: 0, kind: ErrorKind::CorruptElementBuffer, token: String::new() }
    }
}

} // verus!

verus! {

/// Declares std's `io::Error` so that a read error can be carried in
/// `ObjLoadError`; nothing is assumed of its values.
#[verifier::external_type_specification]
#[verifier::external_body]
pub struct ExIoError(std::io::Error);

/// A failure to load a model from a file.
#[derive(Debug)]
pub enum ObjLoadError {
    /// The file could not be read.
    Io(std::io::Error),
    /// The text did not parse.
    Parse(ObjParseError),
}

} // verus!
