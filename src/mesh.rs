use vstd::prelude::*;

use crate::element::{
    ElementDataType, ElementIter, Record, encode_all, encode_record, lemma_encode_push, tag_of,
    width,
};
use crate::error::{ErrorKind, Failure, ObjLoadError, ObjParseError, Statement};
use crate::index::resolve_index;
use crate::number::{is_real_token, parse_reference};
use crate::syntax::{
    ParseState, corner_shape, corner_values, empty_state, face_record, face_values, fail,
    first_mismatch, first_non_real, is_skipped, lemma_face_values, lemma_no_mismatch, parse_line,
    parse_lines, parse_text, reference_offset, statement_of, vector_components,
};
use crate::text::{
    chars_of, lemma_split_nonempty, split_chars, split_on, string_of, tokenize,
    views,
};

verus! {

/// An unknown statement that the parse skipped.
#[derive(Debug, Clone, PartialEq)]
pub struct Warning {
    /// The line of the statement, counted from 1.
    pub line: usize,
    /// The statement's tag.
    pub tag: String,
}

/// One mesh: its attribute buffers and its encoded face records.
///
/// Each attribute buffer holds the numeric tokens of its statements, in
/// order, flat: three per vertex position and normal, two per texture
/// coordinate. Every token is a floating-point number: decimal, or `inf`,
/// `infinity` or `nan` in any letter case, each with an optional sign.
#[derive(Debug, Clone, PartialEq)]
pub struct Mesh {
    pub vertices: Vec<String>,
    pub normals: Vec<String>,
    pub uvs: Vec<String>,
    /// The face records, back to back: a signature tag, a corner count, then
    /// the index values of each corner.
    pub elements: Vec<u16>,
}

/// The meshes of a file, and the unknown statements that were skipped.
#[derive(Debug, Clone, PartialEq)]
pub struct Model {
    pub meshes: Vec<Mesh>,
    pub warnings: Vec<Warning>,
}

/// The character sequences that a list of strings holds.
pub open spec fn strings(v: Seq<String>) -> Seq<Seq<char>> {
    Seq::new(v.len(), |i: int| v[i]@)
}

/// The lines and tags of a list of warnings.
pub open spec fn warning_views(v: Seq<Warning>) -> Seq<(int, Seq<char>)> {
    Seq::new(v.len(), |i: int| (v[i].line as int, v[i].tag@))
}

impl Mesh {
    /// Whether this mesh holds the buffers of a parse state.
    pub open spec fn holds(&self, st: ParseState) -> bool {
        &&& strings(self.vertices@) == st.vertices
        &&& strings(self.normals@) == st.normals
        &&& strings(self.uvs@) == st.uvs
        &&& self.elements@ == encode_all(st.faces)
    }

    /// A fresh cursor over the face records, at the start of the buffer.
    pub fn iter_elements(&self) -> (r: ElementIter<'_>)
        ensures
            r.remaining() == self.elements@,
    {
        ElementIter::new(self.elements.as_slice())
    }
}

impl Model {
    /// Whether this model is the outcome of a parse that ended in `st`:
    /// one mesh holding its buffers, and its warnings.
    pub open spec fn holds(&self, st: ParseState) -> bool {
        &&& self.meshes@.len() == 1
        &&& self.meshes@[0].holds(st)
        &&& warning_views(self.warnings@) == st.warnings
    }

    /// Parses a whole text in the OBJ format into a model of one mesh.
    ///
    /// Lines are parsed in order; the first line that fails ends the parse
    /// with its error. Unknown statements are skipped and listed as warnings.
    pub fn parse(content: &str) -> (r: Result<Model, ObjParseError>)
        ensures
            match parse_text(content@) {
                Ok(st) => r matches Ok(m) && m.holds(st),
                Err(f) => r matches Err(e) && e@ == f,
            },
    {
        let text = chars_of(content);
        let lines = split_chars(text.as_slice(), '\n');
        let ghost ls = views(lines@);
        let mut b = Builder::new();
        let mut i: usize = 0;
        while i < lines.len()
            invariant
                ls == views(lines@),
                ls == split_on(content@, '\n'),
                i <= lines@.len(),
                b.wf(),
                parse_lines(ls.take(i as int)) == Ok::<ParseState, Failure>(b.state()),
            decreases lines@.len() - i,
        {
            proof {
                assert(ls.take(i + 1).drop_last() =~= ls.take(i as int));
                assert(ls.take(i + 1).last() == lines@[i as int]@);
            }
            match b.parse_statement(lines[i].as_slice(), i + 1) {
                Ok(()) => {},
                Err(e) => {
                    proof {
                        lemma_failure_persists(ls, i + 1);
                    }
                    return Err(e);
                },
            }
            i = i + 1;
        }
        proof {
            assert(ls.take(i as int) =~= ls);
        }
        let mesh = Mesh {
            vertices: b.vertices,
            normals: b.normals,
            uvs: b.uvs,
            elements: b.elements,
        };
        Ok(Model { meshes: vec![mesh], warnings: b.warnings })
    }

    /// Builds a model from the outcome of reading a file: a read error is
    /// passed on, and read text is parsed.
    pub fn from_read(read: Result<String, std::io::Error>) -> (r: Result<Model, ObjLoadError>)
        ensures
            read matches Err(e) ==> r matches Err(ObjLoadError::Io(x)) && x == e,
            read matches Ok(text) ==> match parse_text(text@) {
                Ok(st) => r matches Ok(m) && m.holds(st),
                Err(f) => r matches Err(ObjLoadError::Parse(e)) && e@ == f,
            },
    {
        match read {
            Err(e) => Err(ObjLoadError::Io(e)),
            Ok(text) => match Model::parse(text.as_str()) {
                Ok(m) => Ok(m),
                Err(e) => Err(ObjLoadError::Parse(e)),
            },
        }
    }
}

/// Once a prefix of the lines fails, the parse of all of them fails the same way.
proof fn lemma_failure_persists(ls: Seq<Seq<char>>, k: int)
    requires
        0 <= k <= ls.len(),
        parse_lines(ls.take(k)) is Err,
    ensures
        parse_lines(ls) == parse_lines(ls.take(k)),
    decreases ls.len() - k,
{
    if k == ls.len() {
        assert(ls.take(k) =~= ls);
    } else {
        assert(ls.take(k + 1).drop_last() =~= ls.take(k));
        lemma_failure_persists(ls, k + 1);
    }
}

/// The error at `line` of the given kind, about `token`.
fn failure(line: usize, kind: ErrorKind, token: &[char]) -> (r: ObjParseError)
    ensures
        r@ == fail(line as int, kind, token@),
{
    ObjParseError { line, kind, token: string_of(token) }
}

/// The statement that a tag names, if any.
fn statement_of_tag(tag: &[char]) -> (r: Option<Statement>)
    ensures
        r == statement_of(tag@),
{
    if tag.len() == 1 && tag[0] == 'v' {
        assert(tag@ =~= seq!['v']);
        Some(Statement::Vertex)
    } else if tag.len() == 2 && tag[0] == 'v' && tag[1] == 'n' {
        assert(tag@ =~= seq!['v', 'n']);
        Some(Statement::Normal)
    } else if tag.len() == 2 && tag[0] == 'v' && tag[1] == 't' {
        assert(tag@ =~= seq!['v', 't']);
        Some(Statement::TexCoord)
    } else if tag.len() == 1 && tag[0] == 'f' {
        assert(tag@ =~= seq!['f']);
        Some(Statement::Face)
    } else {
        None
    }
}

/// Splits a corner at its slashes and finds the signature its form gives.
fn split_corner(tok: &[char]) -> (r: (Option<ElementDataType>, Vec<Vec<char>>))
    ensures
        views(r.1@) == split_on(tok@, '/'),
        r.0 == corner_shape(tok@),
{
    let parts = split_chars(tok, '/');
    let shape = if parts.len() == 1 {
        Some(ElementDataType::VertexOnly)
    } else if parts.len() == 2 && parts[1].len() == 0 {
        Some(ElementDataType::VertexOnly)
    } else if parts.len() == 3 && parts[1].len() == 0 {
        Some(ElementDataType::VertexAndNormal)
    } else if parts.len() == 3 {
        Some(ElementDataType::All)
    } else {
        None
    };
    (shape, parts)
}

/// Resolves one reference of a corner among `count` tuples.
fn offset_of_reference(part: &[char], count: usize, line: usize) -> (r: Result<u16, ObjParseError>)
    ensures
        match reference_offset(part@, count as int, line as int) {
            Ok(o) => r == Ok::<u16, ObjParseError>(o),
            Err(f) => r matches Err(e) && e@ == f,
        },
{
    match parse_reference(part) {
        None => Err(failure(line, ErrorKind::NumberFormat, part)),
        Some(reference) => match resolve_index(reference, count) {
            Some(o) => Ok(o),
            None => Err(failure(line, ErrorKind::Index { reference }, part)),
        },
    }
}

/// Once the corners up to `k` fail, the whole corner list fails the same way.
proof fn lemma_face_failure_persists(
    corners: Seq<Seq<char>>,
    st: ParseState,
    line: int,
    k: int,
    n: int,
)
    requires
        0 <= k <= n,
        face_values(corners, st, line, k) is Err,
    ensures
        face_values(corners, st, line, n) == face_values(corners, st, line, k),
    decreases n - k,
{
    if k < n {
        lemma_face_failure_persists(corners, st, line, k, n - 1);
    }
}

/// The buffers of a parse in progress.
struct Builder {
    vertices: Vec<String>,
    normals: Vec<String>,
    uvs: Vec<String>,
    elements: Vec<u16>,
    warnings: Vec<Warning>,
    faces: Ghost<Seq<Record>>,
}

impl Builder {
    spec fn state(&self) -> ParseState {
        ParseState {
            vertices: strings(self.vertices@),
            normals: strings(self.normals@),
            uvs: strings(self.uvs@),
            faces: self.faces@,
            warnings: warning_views(self.warnings@),
        }
    }

    spec fn wf(&self) -> bool {
        self.elements@ == encode_all(self.faces@)
    }

    fn new() -> (r: Self)
        ensures
            r.wf(),
            r.state() == empty_state(),
    {
        let r = Builder {
            vertices: Vec::new(),
            normals: Vec::new(),
            uvs: Vec::new(),
            elements: Vec::new(),
            warnings: Vec::new(),
            faces: Ghost(Seq::empty()),
        };
        assert(r.state() =~= empty_state());
        r
    }

    /// The components of a vector statement `s`, whose tag and arguments
    /// are the tokens of its line.
    fn vector_of(toks: &Vec<Vec<char>>, s: Statement, line: usize) -> (r: Result<
        Vec<String>,
        ObjParseError,
    >)
        requires
            toks@.len() >= 1,
            s != Statement::Face,
        ensures
            match vector_components(s, views(toks@).drop_first(), toks@[0]@, line as int) {
                Ok(cs) => r matches Ok(v) && strings(v@) == cs,
                Err(f) => r matches Err(e) && e@ == f,
            },
    {
        let ghost args = views(toks@).drop_first();
        let mut out: Vec<String> = Vec::new();
        let mut i: usize = 1;
        proof {
            assert(args.skip(0) =~= args);
        }
        while i < toks.len()
            invariant
                args == views(toks@).drop_first(),
                1 <= i <= toks@.len(),
                first_non_real(args) == first_non_real(args.skip(i - 1)),
                strings(out@) == args.take(i - 1),
            decreases toks@.len() - i,
        {
            let ghost rest = args.skip(i - 1);
            proof {
                assert(rest[0] == toks@[i as int]@);
                assert(rest.drop_first() =~= args.skip(i as int));
            }
            if !is_real_token(toks[i].as_slice()) {
                return Err(failure(line, ErrorKind::NumberFormat, toks[i].as_slice()));
            }
            let ghost prev = out@;
            out.push(string_of(toks[i].as_slice()));
            proof {
                assert(args.take(i as int) =~= args.take(i - 1).push(args[i - 1]));
                assert(strings(out@) =~= strings(prev).push(toks@[i as int]@));
                assert(strings(out@) =~= args.take(i as int));
            }
            i = i + 1;
        }
        proof {
            assert(args.skip(i - 1) =~= Seq::<Seq<char>>::empty());
            assert(args.take(i - 1) =~= args);
        }
        let expected: usize = if s == Statement::TexCoord {
            2
        } else {
            3
        };
        if toks.len() - 1 != expected {
            return Err(
                failure(
                    line,
                    ErrorKind::Dimension { statement: s, expected, found: toks.len() - 1 },
                    toks[0].as_slice(),
                ),
            );
        }
        Ok(out)
    }

    /// The index values of one corner, already split at its slashes.
    fn corner_values_of(&self, parts: &Vec<Vec<char>>, tok: Ghost<Seq<char>>, line: usize) -> (r:
        Result<Vec<u16>, ObjParseError>)
        requires
            views(parts@) == split_on(tok@, '/'),
        ensures
            match corner_values(tok@, self.state(), line as int) {
                Ok(c) => r matches Ok(v) && v@ == c,
                Err(f) => r matches Err(e) && e@ == f,
            },
    {
        proof {
            lemma_split_nonempty(tok@, '/');
        }
        let mut out: Vec<u16> = Vec::new();
        let v = match offset_of_reference(parts[0].as_slice(), self.vertices.len() / 3, line) {
            Ok(v) => v,
            Err(e) => return Err(e),
        };
        out.push(v);
        if parts.len() >= 2 && parts[1].len() > 0 {
            let t = match offset_of_reference(parts[1].as_slice(), self.uvs.len() / 2, line) {
                Ok(t) => t,
                Err(e) => return Err(e),
            };
            out.push(t);
        }
        if parts.len() >= 3 {
            let normals = self.normals.len() / 3;
            let n = match offset_of_reference(parts[2].as_slice(), normals, line) {
                Ok(n) => n,
                Err(e) => return Err(e),
            };
            out.push(n);
        }
        proof {
            assert(out@ =~= corner_values(tok@, self.state(), line as int)->Ok_0);
        }
        Ok(out)
    }

    /// The record of a face statement, whose tag and corners are the tokens
    /// of its line.
    fn face_of(&self, toks: &Vec<Vec<char>>, line: usize) -> (r: Result<
        (ElementDataType, Vec<u16>),
        ObjParseError,
    >)
        requires
            toks@.len() >= 2,
        ensures
            match face_record(toks@[0]@, views(toks@).drop_first(), self.state(), line as int) {
                Ok(rec) => r matches Ok(v) && v.0 == rec.0 && v.1@ == rec.1,
                Err(f) => r matches Err(e) && e@ == f,
            },
    {
        let ghost corners = views(toks@).drop_first();
        let ghost st = self.state();
        let (first, _) = split_corner(toks[1].as_slice());
        assert(corners[0] == toks@[1]@);
        let mut mismatch: Option<usize> = None;
        let mut values: Vec<u16> = Vec::new();
        let mut i: usize = 1;
        while i < toks.len()
            invariant
                corners == views(toks@).drop_first(),
                st == self.state(),
                first == corner_shape(corners[0]),
                1 <= i <= toks@.len(),
                face_values(corners, st, line as int, i - 1) == Ok::<Seq<u16>, Failure>(values@),
                match mismatch {
                    Some(m) => m < i - 1 && first_mismatch(corners, i - 1) == Some(m as int),
                    None => first_mismatch(corners, i - 1) is None,
                },
            decreases toks@.len() - i,
        {
            assert(corners[i - 1] == toks@[i as int]@);
            let (shape, parts) = split_corner(toks[i].as_slice());
            if mismatch.is_none() && (shape.is_none() || shape != first) {
                mismatch = Some(i - 1);
            }
            let c = match self.corner_values_of(&parts, Ghost(toks@[i as int]@), line) {
                Ok(c) => c,
                Err(e) => {
                    proof {
                        assert(face_values(corners, st, line as int, i as int) == Err::<
                            Seq<u16>,
                            Failure,
                        >(e@));
                        lemma_face_failure_persists(
                            corners,
                            st,
                            line as int,
                            i as int,
                            corners.len() as int,
                        );
                    }
                    return Err(e);
                },
            };
            let mut j: usize = 0;
            let ghost before = values@;
            while j < c.len()
                invariant
                    j <= c@.len(),
                    values@ == before + c@.take(j as int),
                decreases c@.len() - j,
            {
                values.push(c[j]);
                proof {
                    assert(c@.take(j + 1) =~= c@.take(j as int).push(c@[j as int]));
                }
                j = j + 1;
            }
            proof {
                assert(c@.take(j as int) =~= c@);
            }
            i = i + 1;
        }
        let corner_count = toks.len() - 1;
        if corner_count < 3 {
            return Err(
                failure(
                    line,
                    ErrorKind::DegenerateFace { corners: corner_count },
                    toks[0].as_slice(),
                ),
            );
        }
        if corner_count > 65535 {
            return Err(
                failure(
                    line,
                    ErrorKind::FaceTooLarge { corners: corner_count },
                    toks[0].as_slice(),
                ),
            );
        }
        match mismatch {
            Some(m) => {
                assert(corners[m as int] == toks@[m + 1]@);
                Err(failure(line, ErrorKind::CornerSyntax, toks[m + 1].as_slice()))
            },
            None => match first {
                Some(kind) => Ok((kind, values)),
                None => Err(failure(line, ErrorKind::CornerSyntax, toks[1].as_slice())),
            },
        }
    }

    /// Parses one line, numbered `line`, into the buffers.
    fn parse_statement(&mut self, raw: &[char], line: usize) -> (r: Result<(), ObjParseError>)
        requires
            old(self).wf(),
        ensures
            match parse_line(old(self).state(), raw@, line as int) {
                Ok(st) => r is Ok && final(self).wf() && final(self).state() == st,
                Err(f) => r matches Err(e) && e@ == f,
            },
    {
        if raw.len() == 0 || raw[0] == '#' {
            return Ok(());
        }
        let toks = tokenize(raw);
        if toks.len() == 0 {
            return Ok(());
        }
        proof {
            assert(!is_skipped(raw@));
        }
        let ghost st = self.state();
        let stmt = match statement_of_tag(toks[0].as_slice()) {
            Some(s) => s,
            None => {
                self.warnings.push(Warning { line, tag: string_of(toks[0].as_slice()) });
                proof {
                    assert(self.state() =~= ParseState {
                        warnings: st.warnings.push((line as int, toks@[0]@)),
                        ..st
                    });
                }
                return Ok(());
            },
        };
        if toks.len() == 1 {
            return Err(
                failure(line, ErrorKind::MissingArguments { statement: stmt }, toks[0].as_slice()),
            );
        }
        match stmt {
            Statement::Face => {
                let (kind, values) = match self.face_of(&toks, line) {
                    Ok(rec) => rec,
                    Err(e) => return Err(e),
                };
                let ghost rec: Record = (kind, values@);
                let corners = toks.len() - 1;
                proof {
                    lemma_no_mismatch(views(toks@).drop_first(), corners as int);
                    lemma_face_values(
                        views(toks@).drop_first(),
                        kind,
                        st,
                        line as int,
                        corners as int,
                    );
                    assert(values@.len() / width(kind) == corners) by (nonlinear_arith)
                        requires
                            values@.len() == corners * width(kind),
                            width(kind) > 0,
                    ;
                    lemma_encode_push(self.faces@, rec);
                }
                let ghost before = self.elements@;
                self.elements.push(kind.into_element_data());
                self.elements.push(corners as u16);
                let mut j: usize = 0;
                while j < values.len()
                    invariant
                        j <= values@.len(),
                        corners <= u16::MAX,
                        self.state() == st,
                        self.elements@ == before + seq![tag_of(kind), corners as u16]
                            + values@.take(j as int),
                    decreases values@.len() - j,
                {
                    self.elements.push(values[j]);
                    proof {
                        assert(values@.take(j + 1) =~= values@.take(j as int).push(
                            values@[j as int],
                        ));
                    }
                    j = j + 1;
                }
                proof {
                    assert(values@.take(j as int) =~= values@);
                    assert(self.elements@ =~= before + encode_record(rec));
                }
                self.faces = Ghost(self.faces@.push(rec));
                proof {
                    assert(self.state() =~= ParseState { faces: st.faces.push(rec), ..st });
                }
                Ok(())
            },
            _ => {
                let cs = match Builder::vector_of(&toks, stmt, line) {
                    Ok(cs) => cs,
                    Err(e) => return Err(e),
                };
                let ghost before = self.state();
                let mut j: usize = 0;
                while j < cs.len()
                    invariant
                        j <= cs@.len(),
                        stmt != Statement::Face,
                        self.elements@ == encode_all(self.faces@),
                        self.faces@ == before.faces,
                        warning_views(self.warnings@) == before.warnings,
                        stmt == Statement::Vertex ==> self.state() == (ParseState {
                            vertices: before.vertices + strings(cs@.take(j as int)),
                            ..before
                        }),
                        stmt == Statement::Normal ==> self.state() == (ParseState {
                            normals: before.normals + strings(cs@.take(j as int)),
                            ..before
                        }),
                        stmt == Statement::TexCoord ==> self.state() == (ParseState {
                            uvs: before.uvs + strings(cs@.take(j as int)),
                            ..before
                        }),
                    decreases cs@.len() - j,
                {
                    let c = cs[j].clone();
                    proof {
                        assert(strings(cs@.take(j + 1)) =~= strings(cs@.take(j as int)).push(c@));
                    }
                    match stmt {
                        Statement::Vertex => {
                            let ghost old_v = self.vertices@;
                            self.vertices.push(c);
                            assert(strings(self.vertices@) =~= strings(old_v).push(cs@[j as int]@));
                            assert(self.state() =~= ParseState {
                                vertices: before.vertices + strings(cs@.take(j + 1)),
                                ..before
                            });
                        },
                        Statement::Normal => {
                            let ghost old_v = self.normals@;
                            self.normals.push(c);
                            assert(strings(self.normals@) =~= strings(old_v).push(cs@[j as int]@));
                            assert(self.state() =~= ParseState {
                                normals: before.normals + strings(cs@.take(j + 1)),
                                ..before
                            });
                        },
                        _ => {
                            let ghost old_v = self.uvs@;
                            self.uvs.push(c);
                            assert(strings(self.uvs@) =~= strings(old_v).push(cs@[j as int]@));
                            assert(self.state() =~= ParseState {
                                uvs: before.uvs + strings(cs@.take(j + 1)),
                                ..before
                            });
                        },
                    }
                    j = j + 1;
                }
                proof {
                    assert(cs@.take(j as int) =~= cs@);
                }
                Ok(())
            },
        }
    }
}

} // verus!
