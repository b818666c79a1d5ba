use vstd::prelude::*;

use crate::element::{
    ElementDataType, Record, after_steps, decode, encode_all, head_readable, head_record,
    lemma_decode_encode, lemma_decode_nth, record_fits, width,
};
use crate::error::{ErrorKind, Statement};
use crate::number::is_real;
use crate::syntax::{
    ParseState, channel_count, corner_values, dimension_of, face_record, face_values, fail,
    first_non_real, is_skipped, lemma_face_values, lemma_no_mismatch, parse_line, parse_lines,
    parse_text, record_in_range, statement_of,
};
use crate::text::{split_on, tokens_of};

verus! {

/// A face record as the parser leaves it: whole corners, between three and
/// `u16::MAX` of them, each index naming an existing tuple.
pub open spec fn face_ok(r: Record, st: ParseState) -> bool {
    &&& record_fits(r)
    &&& r.1.len() / width(r.0) >= 3
    &&& record_in_range(r.0, r.1, st)
}

/// The invariant of a parse state: whole tuples in each attribute buffer,
/// and well-formed face records.
pub open spec fn well_formed(st: ParseState) -> bool {
    &&& st.vertices.len() % 3 == 0
    &&& st.normals.len() % 3 == 0
    &&& st.uvs.len() % 2 == 0
    &&& forall|i: int| 0 <= i < st.faces.len() ==> face_ok(#[trigger] st.faces[i], st)
}

proof fn lemma_in_range_grows(
    kind: ElementDataType,
    values: Seq<u16>,
    st: ParseState,
    st2: ParseState,
)
    requires
        record_in_range(kind, values, st),
        st.vertices.len() <= st2.vertices.len(),
        st.normals.len() <= st2.normals.len(),
        st.uvs.len() <= st2.uvs.len(),
    ensures
        record_in_range(kind, values, st2),
{
    assert forall|p: int| 0 <= p < values.len() implies (#[trigger] values[p]) < channel_count(
        st2,
        kind,
        p % width(kind) as int,
    ) by {
        assert(values[p] < channel_count(st, kind, p % width(kind) as int));
    }
}

proof fn lemma_faces_carry(st: ParseState, st2: ParseState)
    requires
        well_formed(st),
        st2.faces == st.faces,
        st.vertices.len() <= st2.vertices.len(),
        st.normals.len() <= st2.normals.len(),
        st.uvs.len() <= st2.uvs.len(),
    ensures
        forall|i: int| 0 <= i < st2.faces.len() ==> face_ok(#[trigger] st2.faces[i], st2),
{
    assert forall|i: int| 0 <= i < st2.faces.len() implies face_ok(
        #[trigger] st2.faces[i],
        st2,
    ) by {
        assert(face_ok(st.faces[i], st));
        lemma_in_range_grows(st.faces[i].0, st.faces[i].1, st, st2);
    }
}

proof fn lemma_line_well_formed(st: ParseState, raw: Seq<char>, line: int)
    requires
        well_formed(st),
        parse_line(st, raw, line) is Ok,
    ensures
        well_formed(parse_line(st, raw, line)->Ok_0),
{
    let st2 = parse_line(st, raw, line)->Ok_0;
    if st2.faces.len() == st.faces.len() {
        assert(st2.faces =~= st.faces) by {
            if st2.faces != st.faces {
                assert(false);
            }
        }
        lemma_faces_carry(st, st2);
    } else {
        let toks = tokens_of(raw);
        let args = toks.drop_first();
        let r = face_record(toks[0], args, st, line)->Ok_0;
        assert(st2.faces == st.faces.push(r));
        lemma_no_mismatch(args, args.len() as int);
        lemma_face_values(args, r.0, st, line, args.len() as int);
        assert(r.1.len() / width(r.0) == args.len()) by (nonlinear_arith)
            requires
                r.1.len() == args.len() * width(r.0),
                width(r.0) > 0,
        ;
        assert(r.1.len() % width(r.0) == 0) by (nonlinear_arith)
            requires
                r.1.len() == args.len() * width(r.0),
                width(r.0) > 0,
        ;
        lemma_faces_carry(st, ParseState { faces: st.faces, ..st2 });
        assert forall|i: int| 0 <= i < st2.faces.len() implies face_ok(
            #[trigger] st2.faces[i],
            st2,
        ) by {
            if i < st.faces.len() {
                assert(st2.faces[i] == st.faces[i]);
                assert(face_ok(st.faces[i], ParseState { faces: st.faces, ..st2 }));
            }
        }
    }
}

proof fn lemma_lines_well_formed(ls: Seq<Seq<char>>)
    requires
        parse_lines(ls) is Ok,
    ensures
        well_formed(parse_lines(ls)->Ok_0),
    decreases ls.len(),
{
    if ls.len() > 0 {
        lemma_lines_well_formed(ls.drop_last());
        lemma_line_well_formed(parse_lines(ls.drop_last())->Ok_0, ls.last(), ls.len() as int);
    }
}

/// A parsed text leaves whole tuples in every attribute buffer and
/// well-formed face records, and decoding its element buffer gives back each
/// face's signature and resolved indices, in input order.
pub proof fn lemma_parse_round_trip(content: Seq<char>)
    requires
        parse_text(content) is Ok,
    ensures
        well_formed(parse_text(content)->Ok_0),
        decode(encode_all(parse_text(content)->Ok_0.faces)) == Some(
            parse_text(content)->Ok_0.faces,
        ),
{
    lemma_lines_well_formed(split_on(content, '\n'));
    let st = parse_text(content)->Ok_0;
    assert forall|i: int| 0 <= i < st.faces.len() implies record_fits(#[trigger] st.faces[i]) by {
        assert(face_ok(st.faces[i], st));
    }
    lemma_decode_encode(st.faces);
}

/// Iterating a parsed file's element buffer from the start: after `j`
/// records have been read, the next one is the `j`-th face statement's
/// signature and resolved indices, and after the last face the buffer is
/// used up exactly, so that the next call returns `None`.
pub proof fn lemma_parse_iteration(content: Seq<char>, j: nat)
    requires
        parse_text(content) is Ok,
        j <= parse_text(content)->Ok_0.faces.len(),
    ensures
        ({
            let faces = parse_text(content)->Ok_0.faces;
            let rest = after_steps(encode_all(faces), j);
            &&& j < faces.len() ==> rest.len() > 0 && head_readable(rest) && head_record(rest)
                == faces[j as int]
            &&& j == faces.len() ==> rest.len() == 0
        }),
{
    lemma_parse_round_trip(content);
    lemma_decode_nth(encode_all(parse_text(content)->Ok_0.faces), j);
}

/// Whether two parse states hold the same buffers and faces.
pub open spec fn same_buffers(a: ParseState, b: ParseState) -> bool {
    &&& a.vertices == b.vertices
    &&& a.normals == b.normals
    &&& a.uvs == b.uvs
    &&& a.faces == b.faces
}

proof fn lemma_corner_agree(tok: Seq<char>, a: ParseState, b: ParseState, la: int, lb: int)
    requires
        same_buffers(a, b),
    ensures
        corner_values(tok, a, la) is Ok <==> corner_values(tok, b, lb) is Ok,
        corner_values(tok, a, la) is Ok ==> corner_values(tok, a, la)->Ok_0 == corner_values(
            tok,
            b,
            lb,
        )->Ok_0,
{
}

proof fn lemma_face_values_agree(
    corners: Seq<Seq<char>>,
    a: ParseState,
    b: ParseState,
    la: int,
    lb: int,
    k: int,
)
    requires
        same_buffers(a, b),
    ensures
        face_values(corners, a, la, k) is Ok <==> face_values(corners, b, lb, k) is Ok,
        face_values(corners, a, la, k) is Ok ==> face_values(corners, a, la, k)->Ok_0
            == face_values(corners, b, lb, k)->Ok_0,
    decreases k,
{
    if k > 0 {
        lemma_face_values_agree(corners, a, b, la, lb, k - 1);
        lemma_corner_agree(corners[k - 1], a, b, la, lb);
    }
}

/// A line's effect on the buffers does not depend on its number, nor on
/// the warnings gathered before it.
proof fn lemma_line_agree(a: ParseState, b: ParseState, raw: Seq<char>, la: int, lb: int)
    requires
        same_buffers(a, b),
    ensures
        parse_line(a, raw, la) is Ok <==> parse_line(b, raw, lb) is Ok,
        parse_line(a, raw, la) is Ok ==> same_buffers(
            parse_line(a, raw, la)->Ok_0,
            parse_line(b, raw, lb)->Ok_0,
        ),
{
    if !is_skipped(raw) {
        let toks = tokens_of(raw);
        let args = toks.drop_first();
        if args.len() > 0 {
            lemma_face_values_agree(args, a, b, la, lb, args.len() as int);
        }
    }
}

/// Whether a line is a statement with a tag that the format does not know.
pub open spec fn is_unknown_statement(raw: Seq<char>) -> bool {
    !is_skipped(raw) && statement_of(tokens_of(raw)[0]) is None
}

/// Inserting a line with an unknown statement (`g groupname`) anywhere into
/// the lines of a text that parses leaves the parse successful, with the
/// same attribute buffers and faces; only a warning is added.
pub proof fn lemma_unknown_line_ignored(
    before: Seq<Seq<char>>,
    after: Seq<Seq<char>>,
    raw: Seq<char>,
)
    requires
        is_unknown_statement(raw),
        parse_lines(before + after) is Ok,
    ensures
        parse_lines(before + seq![raw] + after) is Ok,
        same_buffers(
            parse_lines(before + seq![raw] + after)->Ok_0,
            parse_lines(before + after)->Ok_0,
        ),
    decreases after.len(),
{
    if after.len() == 0 {
        assert(before + after =~= before);
        assert((before + seq![raw] + after).drop_last() =~= before);
        assert((before + seq![raw] + after).last() == raw);
    } else {
        let shorter = after.drop_last();
        assert((before + after).drop_last() =~= before + shorter);
        assert((before + seq![raw] + after).drop_last() =~= before + seq![raw] + shorter);
        assert((before + after).last() == after.last());
        assert((before + seq![raw] + after).last() == after.last());
        lemma_unknown_line_ignored(before, shorter, raw);
        lemma_line_agree(
            parse_lines(before + shorter)->Ok_0,
            parse_lines(before + seq![raw] + shorter)->Ok_0,
            after.last(),
            (before + after).len() as int,
            (before + seq![raw] + after).len() as int,
        );
    }
}

proof fn lemma_all_real(args: Seq<Seq<char>>)
    requires
        forall|i: int| 0 <= i < args.len() ==> is_real(#[trigger] args[i]),
    ensures
        first_non_real(args) is None,
    decreases args.len(),
{
    if args.len() > 0 {
        let rest = args.drop_first();
        assert forall|i: int| 0 <= i < rest.len() implies is_real(#[trigger] rest[i]) by {
            assert(rest[i] == args[i + 1]);
        }
        lemma_all_real(rest);
    }
}

/// A vector statement whose components are all numbers, but fewer or more
/// than its dimension (three for `v` and `vn`, two for `vt`), fails with a
/// dimension error naming the statement, the expected and the found count,
/// whatever was parsed before it.
pub proof fn lemma_dimension_mismatch(st: ParseState, raw: Seq<char>, line: int)
    requires
        raw.len() > 0,
        raw[0] != '#',
        tokens_of(raw).len() >= 2,
        statement_of(tokens_of(raw)[0]) matches Some(s) && s != Statement::Face,
        tokens_of(raw).len() - 1 != dimension_of(statement_of(tokens_of(raw)[0])->Some_0),
        forall|i: int| 1 <= i < tokens_of(raw).len() ==> is_real(#[trigger] tokens_of(raw)[i]),
    ensures
        parse_line(st, raw, line) == Err::<ParseState, _>(
            fail(
                line,
                ErrorKind::Dimension {
                    statement: statement_of(tokens_of(raw)[0])->Some_0,
                    expected: dimension_of(statement_of(tokens_of(raw)[0])->Some_0) as usize,
                    found: (tokens_of(raw).len() - 1) as usize,
                },
                tokens_of(raw)[0],
            ),
        ),
{
    let toks = tokens_of(raw);
    let args = toks.drop_first();
    assert forall|i: int| 0 <= i < args.len() implies is_real(#[trigger] args[i]) by {
        assert(args[i] == toks[i + 1]);
    }
    lemma_all_real(args);
}

} // verus!
