use vstd::prelude::*;

use crate::element::{ElementDataType, Record, width};
use crate::error::{ErrorKind, Failure, Statement};
use crate::index::resolved;
use crate::number::{is_real, reference_of};
use crate::text::{split_on, tokens_of};

verus! {

/// What a parse has gathered after some lines: the component tokens of each
/// attribute buffer, the face records, and the unknown statements skipped,
/// each with its line and tag.
#[verifier::ext_equal]
pub struct ParseState {
    pub vertices: Seq<Seq<char>>,
    pub normals: Seq<Seq<char>>,
    pub uvs: Seq<Seq<char>>,
    pub faces: Seq<Record>,
    pub warnings: Seq<(int, Seq<char>)>,
}

pub open spec fn empty_state() -> ParseState {
    ParseState {
        vertices: Seq::empty(),
        normals: Seq::empty(),
        uvs: Seq::empty(),
        faces: Seq::empty(),
        warnings: Seq::empty(),
    }
}

pub open spec fn fail(line: int, kind: ErrorKind, token: Seq<char>) -> Failure {
    Failure { line, kind, token }
}

/// The statement that a tag names, if any.
pub open spec fn statement_of(tag: Seq<char>) -> Option<Statement> {
    if tag == seq!['v'] {
        Some(Statement::Vertex)
    } else if tag == seq!['v', 'n'] {
        Some(Statement::Normal)
    } else if tag == seq!['v', 't'] {
        Some(Statement::TexCoord)
    } else if tag == seq!['f'] {
        Some(Statement::Face)
    } else {
        None
    }
}

/// How many components a vector statement takes.
pub open spec fn dimension_of(s: Statement) -> int {
    if s == Statement::TexCoord {
        2
    } else {
        3
    }
}

/// The first token that is not a floating-point number, if any.
pub open spec fn first_non_real(args: Seq<Seq<char>>) -> Option<Seq<char>>
    decreases args.len(),
{
    if args.len() == 0 {
        None
    } else if !is_real(args[0]) {
        Some(args[0])
    } else {
        first_non_real(args.drop_first())
    }
}

/// The components of a vector statement: every argument a number, and as
/// many arguments as the statement's dimension.
pub open spec fn vector_components(
    s: Statement,
    args: Seq<Seq<char>>,
    tag: Seq<char>,
    line: int,
) -> Result<Seq<Seq<char>>, Failure> {
    match first_non_real(args) {
        Some(t) => Err(fail(line, ErrorKind::NumberFormat, t)),
        None => if args.len() != dimension_of(s) {
            Err(
                fail(
                    line,
                    ErrorKind::Dimension {
                        statement: s,
                        expected: dimension_of(s) as usize,
                        found: args.len() as usize,
                    },
                    tag,
                ),
            )
        } else {
            Ok(args)
        },
    }
}

/// The channel signature that a corner's form gives: `v` and `v/` carry a
/// vertex, `v//vn` a vertex and a normal, `v/vt/vn` all three.
///
/// `v/vt` gives `None`: a record has one signature and a fixed number of
/// values per corner, which is what lets the element buffer delimit its
/// records, and no signature holds a texture coordinate without a normal.
/// Forms of more than three parts give `None` as well.
pub open spec fn corner_shape(tok: Seq<char>) -> Option<ElementDataType> {
    let parts = split_on(tok, '/');
    if parts.len() == 1 {
        Some(ElementDataType::VertexOnly)
    } else if parts.len() == 2 && parts[1].len() == 0 {
        Some(ElementDataType::VertexOnly)
    } else if parts.len() == 3 && parts[1].len() == 0 {
        Some(ElementDataType::VertexAndNormal)
    } else if parts.len() == 3 {
        Some(ElementDataType::All)
    } else {
        None
    }
}

/// Whether the parts of a corner hold a texture-coordinate reference.
pub open spec fn has_uv(parts: Seq<Seq<char>>) -> bool {
    parts.len() >= 2 && parts[1].len() > 0
}

/// Whether the parts of a corner hold a normal reference.
pub open spec fn has_normal(parts: Seq<Seq<char>>) -> bool {
    parts.len() >= 3
}

/// The offset that one reference of a corner resolves to among `count` tuples.
pub open spec fn reference_offset(part: Seq<char>, count: int, line: int) -> Result<u16, Failure> {
    match reference_of(part) {
        None => Err(fail(line, ErrorKind::NumberFormat, part)),
        Some(r) => match resolved(r as int, count) {
            Some(o) => Ok(o),
            None => Err(fail(line, ErrorKind::Index { reference: r }, part)),
        },
    }
}

pub open spec fn vertex_count(st: ParseState) -> int {
    st.vertices.len() as int / 3
}

pub open spec fn normal_count(st: ParseState) -> int {
    st.normals.len() as int / 3
}

pub open spec fn uv_count(st: ParseState) -> int {
    st.uvs.len() as int / 2
}

/// The index values of one corner: its vertex reference, then its
/// texture-coordinate and normal references where present, each resolved
/// against the tuples parsed so far.
pub open spec fn corner_values(tok: Seq<char>, st: ParseState, line: int) -> Result<
    Seq<u16>,
    Failure,
> {
    let parts = split_on(tok, '/');
    match reference_offset(parts[0], vertex_count(st), line) {
        Err(e) => Err(e),
        Ok(v) => match if has_uv(parts) {
            match reference_offset(parts[1], uv_count(st), line) {
                Err(e) => Err(e),
                Ok(t) => Ok(seq![t]),
            }
        } else {
            Ok(Seq::empty())
        } {
            Err(e) => Err(e),
            Ok(ts) => if has_normal(parts) {
                match reference_offset(parts[2], normal_count(st), line) {
                    Err(e) => Err(e),
                    Ok(n) => Ok(seq![v] + ts + seq![n]),
                }
            } else {
                Ok(seq![v] + ts)
            },
        },
    }
}

/// The index values of the first `k` corners of a face, in order.
pub open spec fn face_values(corners: Seq<Seq<char>>, st: ParseState, line: int, k: int) -> Result<
    Seq<u16>,
    Failure,
>
    decreases k,
{
    if k <= 0 {
        Ok(Seq::empty())
    } else {
        match face_values(corners, st, line, k - 1) {
            Err(e) => Err(e),
            Ok(d) => match corner_values(corners[k - 1], st, line) {
                Err(e) => Err(e),
                Ok(c) => Ok(d + c),
            },
        }
    }
}

/// The first of the first `k` corners whose form gives no signature, or
/// another signature than the first corner's.
pub open spec fn first_mismatch(corners: Seq<Seq<char>>, k: int) -> Option<int>
    decreases k,
{
    if k <= 0 {
        None
    } else {
        match first_mismatch(corners, k - 1) {
            Some(i) => Some(i),
            None => if corner_shape(corners[k - 1]) is Some && corner_shape(corners[k - 1])
                == corner_shape(corners[0]) {
                None
            } else {
                Some(k - 1)
            },
        }
    }
}

/// The record of a face statement with at least one corner. References are
/// resolved first, then the corner count is checked, and only then the
/// corners' forms.
pub open spec fn face_record(
    tag: Seq<char>,
    corners: Seq<Seq<char>>,
    st: ParseState,
    line: int,
) -> Result<Record, Failure> {
    match face_values(corners, st, line, corners.len() as int) {
        Err(e) => Err(e),
        Ok(d) => if corners.len() < 3 {
            Err(fail(line, ErrorKind::DegenerateFace { corners: corners.len() as usize }, tag))
        } else if corners.len() > u16::MAX {
            Err(fail(line, ErrorKind::FaceTooLarge { corners: corners.len() as usize }, tag))
        } else {
            match first_mismatch(corners, corners.len() as int) {
                Some(i) => Err(fail(line, ErrorKind::CornerSyntax, corners[i])),
                None => Ok((corner_shape(corners[0])->Some_0, d)),
            }
        },
    }
}

/// Whether a line holds no statement: empty, a comment, or blank.
pub open spec fn is_skipped(raw: Seq<char>) -> bool {
    raw.len() == 0 || raw[0] == '#' || tokens_of(raw).len() == 0
}

/// The effect of one line, numbered `line`, on the state.
pub open spec fn parse_line(
    st: ParseState,
    raw: Seq<char>,
    line: int,
) -> Result<ParseState, Failure> {
    if is_skipped(raw) {
        Ok(st)
    } else {
        let toks = tokens_of(raw);
        let tag = toks[0];
        let args = toks.drop_first();
        match statement_of(tag) {
            None => Ok(ParseState { warnings: st.warnings.push((line, tag)), ..st }),
            Some(s) => if args.len() == 0 {
                Err(fail(line, ErrorKind::MissingArguments { statement: s }, tag))
            } else if s == Statement::Face {
                match face_record(tag, args, st, line) {
                    Err(e) => Err(e),
                    Ok(r) => Ok(ParseState { faces: st.faces.push(r), ..st }),
                }
            } else {
                match vector_components(s, args, tag, line) {
                    Err(e) => Err(e),
                    Ok(cs) => if s == Statement::Vertex {
                        Ok(ParseState { vertices: st.vertices + cs, ..st })
                    } else if s == Statement::Normal {
                        Ok(ParseState { normals: st.normals + cs, ..st })
                    } else {
                        Ok(ParseState { uvs: st.uvs + cs, ..st })
                    },
                }
            },
        }
    }
}

/// The result of parsing the given lines in order, the first numbered 1;
/// the first failing line ends the parse.
pub open spec fn parse_lines(ls: Seq<Seq<char>>) -> Result<ParseState, Failure>
    decreases ls.len(),
{
    if ls.len() == 0 {
        Ok(empty_state())
    } else {
        match parse_lines(ls.drop_last()) {
            Err(e) => Err(e),
            Ok(st) => parse_line(st, ls.last(), ls.len() as int),
        }
    }
}

/// The result of parsing a whole text, line by line.
pub open spec fn parse_text(s: Seq<char>) -> Result<ParseState, Failure> {
    parse_lines(split_on(s, '\n'))
}

} // verus!

verus! {

/// How many tuples the buffer has that the value at position `j` of a
/// corner of signature `kind` refers to.
pub open spec fn channel_count(st: ParseState, kind: ElementDataType, j: int) -> int {
    if j == 0 {
        vertex_count(st)
    } else if kind == ElementDataType::All && j == 1 {
        uv_count(st)
    } else {
        normal_count(st)
    }
}

/// Whether every index value of a record names an existing tuple of its buffer.
pub open spec fn record_in_range(kind: ElementDataType, values: Seq<u16>, st: ParseState) -> bool {
    forall|p: int|
        0 <= p < values.len() ==> (#[trigger] values[p]) < channel_count(
            st,
            kind,
            p % width(kind) as int,
        )
}

pub proof fn lemma_corner_values(tok: Seq<char>, kind: ElementDataType, st: ParseState, line: int)
    requires
        corner_values(tok, st, line) is Ok,
        corner_shape(tok) == Some(kind),
    ensures
        ({
            let c = corner_values(tok, st, line)->Ok_0;
            &&& c.len() == width(kind)
            &&& forall|j: int| 0 <= j < c.len() ==> (#[trigger] c[j]) < channel_count(st, kind, j)
        }),
{
}

/// Where no corner mismatches, every corner has the first corner's signature.
pub proof fn lemma_no_mismatch(corners: Seq<Seq<char>>, k: int)
    requires
        first_mismatch(corners, k) is None,
    ensures
        forall|i: int|
            0 <= i < k ==> #[trigger] corner_shape(corners[i]) is Some && corner_shape(corners[i])
                == corner_shape(corners[0]),
    decreases k,
{
    if k > 0 {
        lemma_no_mismatch(corners, k - 1);
    }
}

/// The index values of the first `k` corners of a face whose corners all
/// have signature `kind`: one group per corner, each naming existing tuples.
pub proof fn lemma_face_values(
    corners: Seq<Seq<char>>,
    kind: ElementDataType,
    st: ParseState,
    line: int,
    k: int,
)
    requires
        k >= 0,
        face_values(corners, st, line, k) is Ok,
        forall|i: int| 0 <= i < k ==> #[trigger] corner_shape(corners[i]) == Some(kind),
    ensures
        face_values(corners, st, line, k)->Ok_0.len() == k * width(kind),
        record_in_range(kind, face_values(corners, st, line, k)->Ok_0, st),
    decreases k,
{
    if k > 0 {
        lemma_face_values(corners, kind, st, line, k - 1);
        let d = face_values(corners, st, line, k - 1)->Ok_0;
        let c = corner_values(corners[k - 1], st, line)->Ok_0;
        assert(corner_shape(corners[k - 1]) == Some(kind));
        lemma_corner_values(corners[k - 1], kind, st, line);
        let w = width(kind) as int;
        let all = d + c;
        assert((k - 1) * w + w == k * w) by (nonlinear_arith);
        assert forall|p: int| 0 <= p < all.len() implies (#[trigger] all[p]) < channel_count(
            st,
            kind,
            p % w,
        ) by {
            if p >= d.len() {
                let j = p - d.len();
                assert(all[p] == c[j]);
                assert(c[j] < channel_count(st, kind, j));
                assert(p % w == j) by {
                    assert(p == (k - 1) * w + j);
                    if kind == ElementDataType::VertexOnly {
                        assert(w == 1);
                    } else if kind == ElementDataType::VertexAndNormal {
                        assert(w == 2);
                        assert(((k - 1) * 2 + j) % 2 == j) by (nonlinear_arith)
                            requires
                                0 <= j < 2,
                                k >= 1,
                        ;
                    } else {
                        assert(w == 3);
                        assert(((k - 1) * 3 + j) % 3 == j) by (nonlinear_arith)
                            requires
                                0 <= j < 3,
                                k >= 1,
                        ;
                    }
                }
            } else {
                assert(all[p] == d[p]);
                assert(d[p] < channel_count(st, kind, p % width(kind) as int));
            }
        }
    }
}

} // verus!
