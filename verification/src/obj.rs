use vstd::prelude::*;
use crate::text::{
    char_views, chars_of, copy_range, lemma_split_nonempty, split_char, split_chars, trim, trim_chars,
};

verus! {

/// The three coordinate tokens of a vertex line (`v x y z`), as written.
pub struct ObjVertex {
    pub x: Vec<char>,
    pub y: Vec<char>,
    pub z: Vec<char>,
}

/// The coordinate tokens of a vertex.
pub struct VertexTokens {
    pub x: Seq<char>,
    pub y: Seq<char>,
    pub z: Seq<char>,
}

impl View for ObjVertex {
    type V = VertexTokens;

    open spec fn view(&self) -> VertexTokens {
        VertexTokens { x: self.x@, y: self.y@, z: self.z@ }
    }
}

/// A triangle of a face line (`f a b c`), as positions in the vertex list
/// counted from 0 (the file counts from 1).
#[derive(Clone, Copy, Debug, PartialEq, Eq, Structural)]
pub struct ObjFace {
    pub a: usize,
    pub b: usize,
    pub c: usize,
}

/// What a mesh file holds: its vertices and its triangles, in file order.
pub struct ObjData {
    pub vertices: Vec<ObjVertex>,
    pub faces: Vec<ObjFace>,
}

/// The content of a mesh file.
pub struct ObjModel {
    pub vertices: Seq<VertexTokens>,
    pub faces: Seq<ObjFace>,
}

impl View for ObjData {
    type V = ObjModel;

    open spec fn view(&self) -> ObjModel {
        ObjModel {
            vertices: self.vertices@.map_values(|v: ObjVertex| v@),
            faces: self.faces@,
        }
    }
}

/// Why a line of a mesh file cannot be read.
#[derive(Clone, Copy, Debug, PartialEq, Eq, Structural)]
pub enum ObjErrorKind {
    /// A vertex or face line has fewer than three values.
    MissingField,
    /// A face value is not an unsigned decimal number that fits in `usize`.
    NotAnIndex,
    /// A face value is 0 or greater than the number of vertices read so far.
    IndexOutOfRange,
}

/// The first line of a mesh file that cannot be read (counted from 0), and why.
#[derive(Clone, Copy, Debug, PartialEq, Eq, Structural)]
pub struct ObjError {
    pub line: usize,
    pub kind: ObjErrorKind,
}

/// The value of the decimal digit `c`; `None` when `c` is no ASCII digit.
pub open spec fn digit_of(c: char) -> Option<nat> {
    if c == '0' {
        Some(0)
    } else if c == '1' {
        Some(1)
    } else if c == '2' {
        Some(2)
    } else if c == '3' {
        Some(3)
    } else if c == '4' {
        Some(4)
    } else if c == '5' {
        Some(5)
    } else if c == '6' {
        Some(6)
    } else if c == '7' {
        Some(7)
    } else if c == '8' {
        Some(8)
    } else if c == '9' {
        Some(9)
    } else {
        None
    }
}

pub open spec fn is_digit(c: char) -> bool {
    digit_of(c) is Some
}

/// The number written in decimal by `s`.
pub open spec fn digits_value(s: Seq<char>) -> nat
    decreases s.len(),
{
    if s.len() == 0 {
        0
    } else {
        digits_value(s.drop_last()) * 10 + digit_of(s.last()).unwrap_or(0)
    }
}

/// The digits of a number token: the token without its leading `+`, if any.
pub open spec fn index_digits(t: Seq<char>) -> Seq<char> {
    if t.len() > 0 && t[0] == '+' {
        t.drop_first()
    } else {
        t
    }
}

/// Whether `t` reads as a `usize` (as `str::parse::<usize>` accepts it: an
/// optional `+`, then at least one decimal digit, and a value that fits).
pub open spec fn is_index_token(t: Seq<char>) -> bool {
    let d = index_digits(t);
    &&& d.len() > 0
    &&& forall|i: int| 0 <= i < d.len() ==> is_digit(#[trigger] d[i])
    &&& digits_value(d) <= usize::MAX
}

/// The value of a number token.
pub open spec fn index_value(t: Seq<char>) -> nat {
    digits_value(index_digits(t))
}

/// The tokens of a line: the line without surrounding white space, split at
/// each space.
pub open spec fn line_tokens(line: Seq<char>) -> Seq<Seq<char>> {
    split_char(trim(line), ' ')
}

/// Whether `v` names one of the first `n` vertices (counting from 1).
pub open spec fn in_range(v: nat, n: nat) -> bool {
    1 <= v <= n
}

/// What is wrong with a face line of tokens `t` when `n` vertices were read
/// before it: the first missing or unreadable value, in order; else a value
/// that names no vertex read so far.
pub open spec fn face_error(t: Seq<Seq<char>>, n: nat) -> Option<ObjErrorKind> {
    if t.len() < 2 {
        Some(ObjErrorKind::MissingField)
    } else if !is_index_token(t[1]) {
        Some(ObjErrorKind::NotAnIndex)
    } else if t.len() < 3 {
        Some(ObjErrorKind::MissingField)
    } else if !is_index_token(t[2]) {
        Some(ObjErrorKind::NotAnIndex)
    } else if t.len() < 4 {
        Some(ObjErrorKind::MissingField)
    } else if !is_index_token(t[3]) {
        Some(ObjErrorKind::NotAnIndex)
    } else if !in_range(index_value(t[1]), n) || !in_range(index_value(t[2]), n) || !in_range(
        index_value(t[3]),
        n,
    ) {
        Some(ObjErrorKind::IndexOutOfRange)
    } else {
        None
    }
}

/// `m` after one more line: a `v` line adds a vertex, an `f` line a triangle,
/// any other line nothing.
pub open spec fn read_line(m: ObjModel, line: Seq<char>) -> Result<ObjModel, ObjErrorKind> {
    let t = line_tokens(line);
    if t[0] == seq!['v'] {
        if t.len() >= 4 {
            Ok(
                ObjModel {
                    vertices: m.vertices.push(VertexTokens { x: t[1], y: t[2], z: t[3] }),
                    faces: m.faces,
                },
            )
        } else {
            Err(ObjErrorKind::MissingField)
        }
    } else if t[0] == seq!['f'] {
        match face_error(t, m.vertices.len()) {
            Some(k) => Err(k),
            None => Ok(
                ObjModel {
                    vertices: m.vertices,
                    faces: m.faces.push(
                        ObjFace {
                            a: (index_value(t[1]) - 1) as usize,
                            b: (index_value(t[2]) - 1) as usize,
                            c: (index_value(t[3]) - 1) as usize,
                        },
                    ),
                },
            ),
        }
    } else {
        Ok(m)
    }
}

/// The content of the given lines, or the first line that cannot be read.
pub open spec fn read_lines(lines: Seq<Seq<char>>) -> Result<ObjModel, ObjError>
    decreases lines.len(),
{
    if lines.len() == 0 {
        Ok(ObjModel { vertices: Seq::empty(), faces: Seq::empty() })
    } else {
        match read_lines(lines.drop_last()) {
            Err(e) => Err(e),
            Ok(m) => match read_line(m, lines.last()) {
                Ok(m2) => Ok(m2),
                Err(k) => Err(ObjError { line: (lines.len() - 1) as usize, kind: k }),
            },
        }
    }
}

/// The content of a mesh file with text `text`, read line by line.
pub open spec fn obj_content(text: Seq<char>) -> Result<ObjModel, ObjError> {
    read_lines(split_char(text, '\n'))
}

/// Every triangle names vertices of the model.
pub open spec fn faces_in_range(m: ObjModel) -> bool {
    forall|i: int|
        0 <= i < m.faces.len() ==> {
            &&& (#[trigger] m.faces[i]).a < m.vertices.len()
            &&& m.faces[i].b < m.vertices.len()
            &&& m.faces[i].c < m.vertices.len()
        }
}

/// A shorter prefix of digits never has a greater value.
proof fn lemma_digits_prefix_le(s: Seq<char>, k: int)
    requires
        0 <= k <= s.len(),
        forall|i: int| 0 <= i < s.len() ==> is_digit(#[trigger] s[i]),
    ensures
        digits_value(s.take(k)) <= digits_value(s),
    decreases s.len(),
{
    if k == s.len() {
        assert(s.take(k) =~= s);
    } else {
        let p = s.drop_last();
        assert forall|i: int| 0 <= i < p.len() implies is_digit(#[trigger] p[i]) by {
            assert(p[i] == s[i]);
        }
        lemma_digits_prefix_le(p, k);
        assert(p.take(k) =~= s.take(k));
    }
}

/// The value of the decimal digit `c`.
fn char_digit(c: char) -> (res: Option<usize>)
    ensures
        res is Some <==> digit_of(c) is Some,
        res matches Some(v) ==> v == digit_of(c).unwrap() && v < 10,
{
    if c == '0' {
        Some(0)
    } else if c == '1' {
        Some(1)
    } else if c == '2' {
        Some(2)
    } else if c == '3' {
        Some(3)
    } else if c == '4' {
        Some(4)
    } else if c == '5' {
        Some(5)
    } else if c == '6' {
        Some(6)
    } else if c == '7' {
        Some(7)
    } else if c == '8' {
        Some(8)
    } else if c == '9' {
        Some(9)
    } else {
        None
    }
}

/// A leading `+` changes nothing: a token reads as the same number with or
/// without it.
pub proof fn lemma_plus_sign(d: Seq<char>)
    requires
        d.len() > 0,
        d[0] != '+',
    ensures
        is_index_token(seq!['+'] + d) == is_index_token(d),
        index_value(seq!['+'] + d) == index_value(d),
{
    assert((seq!['+'] + d).drop_first() =~= d);
}

/// A leading zero changes nothing: digits read as the same number with or
/// without a `0` in front.
pub proof fn lemma_leading_zero(d: Seq<char>)
    requires
        forall|i: int| 0 <= i < d.len() ==> is_digit(#[trigger] d[i]),
    ensures
        digits_value(seq!['0'] + d) == digits_value(d),
    decreases d.len(),
{
    if d.len() == 0 {
        assert(seq!['0'] + d =~= seq!['0']);
        assert(seq!['0'].drop_last() =~= Seq::<char>::empty());
        assert(seq!['0'].last() == '0');
        assert(digits_value(Seq::<char>::empty()) == 0);
        assert(digit_of('0').unwrap_or(0) == 0);
        assert(digits_value(seq!['0']) == 0);
    } else {
        let p = d.drop_last();
        assert forall|i: int| 0 <= i < p.len() implies is_digit(#[trigger] p[i]) by {
            assert(p[i] == d[i]);
        }
        lemma_leading_zero(p);
        assert((seq!['0'] + d).drop_last() =~= seq!['0'] + p);
        assert((seq!['0'] + d).last() == d.last());
    }
}

/// A single digit reads as its own value, and one more digit after a number
/// multiplies it by ten and adds the digit.
pub proof fn lemma_digit_steps(d: Seq<char>, c: char)
    requires
        is_digit(c),
    ensures
        digits_value(seq![c]) == digit_of(c).unwrap(),
        digits_value(d.push(c)) == digits_value(d) * 10 + digit_of(c).unwrap(),
{
    assert(seq![c].drop_last() =~= Seq::<char>::empty());
    assert(seq![c].last() == c);
    assert(digits_value(Seq::<char>::empty()) == 0);
    assert(digit_of(c).unwrap_or(0) == digit_of(c).unwrap());
    assert(d.push(c).drop_last() =~= d);
    assert(d.push(c).last() == c);
}

/// The value of the number token `t`, when it reads as a `usize`.
pub fn parse_index(t: &Vec<char>) -> (res: Option<usize>)
    ensures
        res is Some <==> is_index_token(t@),
        res matches Some(v) ==> v == index_value(t@),
{
    let n = t.len();
    let mut start: usize = 0;
    if n > 0 && t[0] == '+' {
        start = 1;
    }
    let ghost d = index_digits(t@);
    assert(d =~= t@.skip(start as int));
    if start >= n {
        return None;
    }
    let mut value: usize = 0;
    let mut i: usize = start;
    assert(t@.subrange(start as int, start as int) =~= Seq::<char>::empty());
    while i < n
        invariant
            start <= i <= n == t@.len(),
            d == t@.skip(start as int),
            d == index_digits(t@),
            forall|k: int| start <= k < i ==> is_digit(#[trigger] t@[k]),
            value == digits_value(t@.subrange(start as int, i as int)),
        decreases n - i,
    {
        let c = t[i];
        let digit: usize = match char_digit(c) {
            None => {
                assert(d[i - start] == c);
                assert(!is_digit(d[i - start]));
                return None;
            },
            Some(v) => v,
        };
        let ghost next = t@.subrange(start as int, i + 1);
        assert(next.drop_last() =~= t@.subrange(start as int, i as int));
        assert(digits_value(next) == value * 10 + digit);
        match value.checked_mul(10) {
            None => {
                proof {
                    if forall|k: int| 0 <= k < d.len() ==> is_digit(#[trigger] d[k]) {
                        lemma_digits_prefix_le(d, i + 1 - start);
                        assert(d.take(i + 1 - start) =~= next);
                        assert(digits_value(d) >= value * 10 + digit);
                        assert(digits_value(d) > usize::MAX);
                    }
                }
                return None;
            },
            Some(v10) => match v10.checked_add(digit) {
                None => {
                    proof {
                        if forall|k: int| 0 <= k < d.len() ==> is_digit(#[trigger] d[k]) {
                            lemma_digits_prefix_le(d, i + 1 - start);
                            assert(d.take(i + 1 - start) =~= next);
                        }
                    }
                    return None;
                },
                Some(v) => {
                    value = v;
                },
            },
        }
        i = i + 1;
    }
    assert(t@.subrange(start as int, n as int) =~= d);
    Some(value)
}

/// Whether the token `tok` is the single character `c`.
fn is_tag(tok: &Vec<char>, c: char) -> (res: bool)
    ensures
        res == (tok@ == seq![c]),
{
    if tok.len() == 1 && tok[0] == c {
        assert(tok@ =~= seq![c]);
        true
    } else {
        proof {
            if tok@ == seq![c] {
                assert(tok@.len() == 1 && tok@[0] == c);
            }
        }
        false
    }
}

/// The triangle of a face line with tokens `t`, read when `n` vertices were
/// read before it.
fn read_face(t: &Vec<Vec<char>>, n: usize) -> (res: Result<ObjFace, ObjErrorKind>)
    ensures
        ({
            let tv = char_views(t@);
            match face_error(tv, n as nat) {
                Some(k) => res == Err::<ObjFace, ObjErrorKind>(k),
                None => res == Ok::<ObjFace, ObjErrorKind>(
                    ObjFace {
                        a: (index_value(tv[1]) - 1) as usize,
                        b: (index_value(tv[2]) - 1) as usize,
                        c: (index_value(tv[3]) - 1) as usize,
                    },
                ),
            }
        }),
{
    let ghost tv = char_views(t@);
    if t.len() < 2 {
        return Err(ObjErrorKind::MissingField);
    }
    assert(tv[1] == t@[1]@);
    let a = match parse_index(&t[1]) {
        None => return Err(ObjErrorKind::NotAnIndex),
        Some(v) => v,
    };
    if t.len() < 3 {
        return Err(ObjErrorKind::MissingField);
    }
    assert(tv[2] == t@[2]@);
    let b = match parse_index(&t[2]) {
        None => return Err(ObjErrorKind::NotAnIndex),
        Some(v) => v,
    };
    if t.len() < 4 {
        return Err(ObjErrorKind::MissingField);
    }
    assert(tv[3] == t@[3]@);
    let c = match parse_index(&t[3]) {
        None => return Err(ObjErrorKind::NotAnIndex),
        Some(v) => v,
    };
    if a == 0 || a > n || b == 0 || b > n || c == 0 || c > n {
        return Err(ObjErrorKind::IndexOutOfRange);
    }
    Ok(ObjFace { a: a - 1, b: b - 1, c: c - 1 })
}

/// A line that is neither a vertex line nor a face line changes nothing:
/// reading stops at an earlier error, or gives the same content.
pub proof fn lemma_other_lines_ignored(lines: Seq<Seq<char>>, line: Seq<char>)
    requires
        line_tokens(line)[0] != seq!['v'],
        line_tokens(line)[0] != seq!['f'],
    ensures
        read_lines(lines.push(line)) == read_lines(lines),
{
    assert(lines.push(line).drop_last() =~= lines);
}

/// Every triangle read names a vertex read before it, so the content of any
/// text has its triangles in range.
pub proof fn lemma_read_faces_in_range(lines: Seq<Seq<char>>)
    ensures
        read_lines(lines) matches Ok(m) ==> faces_in_range(m),
    decreases lines.len(),
{
    if lines.len() > 0 {
        lemma_read_faces_in_range(lines.drop_last());
    }
}

/// After lines that read, a vertex line `v X Y Z ...` adds the vertex whose x
/// is X, y is Y and z is Z (the first, second and third values after `v`),
/// and leaves the triangles as they are.
pub proof fn lemma_vertex_line_read(lines: Seq<Seq<char>>, line: Seq<char>)
    requires
        read_lines(lines) is Ok,
        line_tokens(line)[0] == seq!['v'],
        line_tokens(line).len() >= 4,
    ensures
        ({
            let m = read_lines(lines)->Ok_0;
            let t = line_tokens(line);
            read_lines(lines.push(line)) == Ok::<ObjModel, ObjError>(
                ObjModel {
                    vertices: m.vertices.push(VertexTokens { x: t[1], y: t[2], z: t[3] }),
                    faces: m.faces,
                },
            )
        }),
{
    assert(lines.push(line).drop_last() =~= lines);
}

/// A vertex line with fewer than three values is the first error, reported
/// at its own position.
pub proof fn lemma_short_vertex_line_fails(lines: Seq<Seq<char>>, line: Seq<char>)
    requires
        read_lines(lines) is Ok,
        line_tokens(line)[0] == seq!['v'],
        line_tokens(line).len() < 4,
    ensures
        read_lines(lines.push(line)) == Err::<ObjModel, ObjError>(
            ObjError { line: lines.len() as usize, kind: ObjErrorKind::MissingField },
        ),
{
    assert(lines.push(line).drop_last() =~= lines);
}

/// After lines that read, a face line `f A B C ...` whose three values are
/// numbers naming vertices read so far (counting from 1) adds the triangle of
/// vertices A - 1, B - 1 and C - 1, and leaves the vertices as they are.
pub proof fn lemma_face_line_read(lines: Seq<Seq<char>>, line: Seq<char>)
    requires
        read_lines(lines) is Ok,
        line_tokens(line)[0] == seq!['f'],
        line_tokens(line).len() >= 4,
        forall|k: int|
            1 <= k <= 3 ==> {
                &&& is_index_token(#[trigger] line_tokens(line)[k])
                &&& 1 <= index_value(line_tokens(line)[k]) <= read_lines(lines)->Ok_0.vertices.len()
            },
    ensures
        ({
            let m = read_lines(lines)->Ok_0;
            let t = line_tokens(line);
            read_lines(lines.push(line)) == Ok::<ObjModel, ObjError>(
                ObjModel {
                    vertices: m.vertices,
                    faces: m.faces.push(
                        ObjFace {
                            a: (index_value(t[1]) - 1) as usize,
                            b: (index_value(t[2]) - 1) as usize,
                            c: (index_value(t[3]) - 1) as usize,
                        },
                    ),
                },
            )
        }),
{
    let t = line_tokens(line);
    assert(is_index_token(t[1]) && is_index_token(t[2]) && is_index_token(t[3]));
    assert(1 <= index_value(t[1]) && 1 <= index_value(t[2]) && 1 <= index_value(t[3]));
    assert(seq!['f'][0] != seq!['v'][0]);
    assert(t[0] != seq!['v']);
    let m = read_lines(lines)->Ok_0;
    assert(face_error(t, m.vertices.len()) is None);
    assert(lines.push(line).drop_last() =~= lines);
    assert(lines.push(line).last() == line);
}

/// Whether line `j` of `lines` is a vertex line `v X Y Z ...` with
/// X, Y, Z the x, y and z of `v`.
pub open spec fn vertex_line_gives(lines: Seq<Seq<char>>, j: int, v: VertexTokens) -> bool {
    let t = line_tokens(lines[j]);
    &&& 0 <= j < lines.len()
    &&& t[0] == seq!['v']
    &&& t.len() >= 4
    &&& v == VertexTokens { x: t[1], y: t[2], z: t[3] }
}

/// Whether some line of `lines` is a vertex line giving `v`.
pub open spec fn vertex_from_lines(lines: Seq<Seq<char>>, v: VertexTokens) -> bool {
    exists|j: int| #[trigger] vertex_line_gives(lines, j, v)
}

/// Every vertex read comes from a vertex line of the text: its x, y and z
/// are that line's first, second and third values after `v`.
pub proof fn lemma_vertices_come_from_lines(lines: Seq<Seq<char>>)
    ensures
        read_lines(lines) matches Ok(m) ==> forall|k: int|
            0 <= k < m.vertices.len() ==> #[trigger] vertex_from_lines(lines, m.vertices[k]),
    decreases lines.len(),
{
    if lines.len() > 0 {
        let p = lines.drop_last();
        lemma_vertices_come_from_lines(p);
        if let Ok(m) = read_lines(lines) {
            let mp = read_lines(p)->Ok_0;
            assert forall|k: int| 0 <= k < m.vertices.len() implies #[trigger] vertex_from_lines(
                lines,
                m.vertices[k],
            ) by {
                if k < mp.vertices.len() {
                    assert(m.vertices[k] == mp.vertices[k]);
                    assert(vertex_from_lines(p, mp.vertices[k]));
                    let j = choose|j: int| #[trigger] vertex_line_gives(p, j, mp.vertices[k]);
                    assert(lines[j] == p[j]);
                    assert(vertex_line_gives(lines, j, m.vertices[k]));
                } else {
                    let j = lines.len() - 1;
                    assert(lines[j] == lines.last());
                    assert(vertex_line_gives(lines, j, m.vertices[k]));
                }
            }
        }
    }
}

/// Once a prefix of the lines cannot be read, the whole file fails with the
/// same error.
proof fn lemma_read_error_persists(lines: Seq<Seq<char>>, k: int)
    requires
        0 <= k <= lines.len(),
        read_lines(lines.take(k)) is Err,
    ensures
        read_lines(lines) == read_lines(lines.take(k)),
    decreases lines.len(),
{
    if k == lines.len() {
        assert(lines.take(k) =~= lines);
    } else {
        assert(lines.drop_last().take(k) =~= lines.take(k));
        lemma_read_error_persists(lines.drop_last(), k);
    }
}

/// Reads the text of a Wavefront OBJ mesh file. Lines `v x y z` give vertices
/// (the coordinates are kept as written), lines `f a b c` give triangles by
/// the positions of their vertices, counted from 1 and among the vertices
/// read before the line; other lines are ignored, and values after the third
/// are too.
pub fn parse_obj(contents: &str) -> (res: Result<ObjData, ObjError>)
    ensures
        res is Ok <==> obj_content(contents@) is Ok,
        res matches Ok(d) ==> obj_content(contents@) == Ok::<ObjModel, ObjError>(d@),
        res matches Err(e) ==> obj_content(contents@) == Err::<ObjModel, ObjError>(e),
        res matches Ok(d) ==> faces_in_range(d@),
{
    let chars = chars_of(contents);
    let lines = split_chars(&chars, '\n');
    let ghost ls = char_views(lines@);
    let mut vertices: Vec<ObjVertex> = Vec::new();
    let mut faces: Vec<ObjFace> = Vec::new();
    let mut li: usize = 0;
    assert(ls.take(0) =~= Seq::<Seq<char>>::empty());
    assert(vertices@.map_values(|v: ObjVertex| v@) =~= Seq::<VertexTokens>::empty());
    while li < lines.len()
        invariant
            li <= lines@.len(),
            ls == char_views(lines@),
            ls == split_char(contents@, '\n'),
            read_lines(ls.take(li as int)) == Ok::<ObjModel, ObjError>(
                ObjModel { vertices: vertices@.map_values(|v: ObjVertex| v@), faces: faces@ },
            ),
            forall|i: int|
                0 <= i < faces@.len() ==> {
                    &&& (#[trigger] faces@[i]).a < vertices@.len()
                    &&& faces@[i].b < vertices@.len()
                    &&& faces@[i].c < vertices@.len()
                },
        decreases lines@.len() - li,
    {
        let ghost m = ObjModel {
            vertices: vertices@.map_values(|v: ObjVertex| v@),
            faces: faces@,
        };
        let line = trim_chars(&lines[li]);
        let t = split_chars(&line, ' ');
        proof {
            lemma_split_nonempty(line@, ' ');
            assert(ls.take(li + 1).drop_last() =~= ls.take(li as int));
            assert(ls.take(li + 1).last() == ls[li as int]);
            assert(char_views(t@) == line_tokens(ls[li as int]));
        }
        let ghost tv = char_views(t@);
        assert(tv[0] == t@[0]@);
        if is_tag(&t[0], 'v') {
            if t.len() >= 4 {
                assert(tv[1] == t@[1]@ && tv[2] == t@[2]@ && tv[3] == t@[3]@);
                let x = copy_range(&t[1], 0, t[1].len());
                let y = copy_range(&t[2], 0, t[2].len());
                let z = copy_range(&t[3], 0, t[3].len());
                assert(t@[1]@.subrange(0, t@[1]@.len() as int) =~= t@[1]@);
                assert(t@[2]@.subrange(0, t@[2]@.len() as int) =~= t@[2]@);
                assert(t@[3]@.subrange(0, t@[3]@.len() as int) =~= t@[3]@);
                let ghost before = vertices@;
                vertices.push(ObjVertex { x, y, z });
                assert(vertices@.map_values(|v: ObjVertex| v@) =~= before.map_values(
                    |v: ObjVertex| v@,
                ).push(VertexTokens { x: tv[1], y: tv[2], z: tv[3] }));
            } else {
                let e = ObjError { line: li, kind: ObjErrorKind::MissingField };
                proof {
                    lemma_read_error_persists(ls, li + 1);
                    assert(ls =~= ls.take(ls.len() as int));
                }
                return Err(e);
            }
        } else if is_tag(&t[0], 'f') {
            match read_face(&t, vertices.len()) {
                Err(k) => {
                    let e = ObjError { line: li, kind: k };
                    proof {
                        lemma_read_error_persists(ls, li + 1);
                    }
                    return Err(e);
                },
                Ok(f) => {
                    faces.push(f);
                },
            }
        }
        li = li + 1;
    }
    assert(ls.take(lines@.len() as int) =~= ls);
    let d = ObjData { vertices, faces };
    Ok(d)
}

} // verus!
