use crate::lm::math::Vector3;
use crate::shapes::mesh::Mesh;
use crate::shapes::triangle::Triangle;
use vstd::prelude::*;

verus! {

/// The byte that separates the fields of a line.
pub const SPACE: u8 = 32;

/// The byte of which two in a row separate a vertex index from a normal index.
pub const SLASH: u8 = 47;

/// The plus sign that may stand before the digits of an index.
pub const PLUS: u8 = 43;

/// The digit `0`; the other digits follow it in order, up to `9`.
pub const DIGIT_ZERO: u8 = 48;

/// The digit `9`.
pub const DIGIT_NINE: u8 = 57;

/// The letter `v`, with which the lines of vertices and normals begin.
pub const LETTER_V: u8 = 118;

/// The letter `n`, the second of the word before a normal.
pub const LETTER_N: u8 = 110;

/// The letter `f`, with which the line of a face begins.
pub const LETTER_F: u8 = 102;

/// The place of the first space in `s`, or the length of `s` if it has none.
pub open spec fn first_space(s: Seq<u8>) -> int
    decreases s.len(),
{
    if s.len() == 0 || s[0] == SPACE {
        0
    } else {
        1 + first_space(s.drop_first())
    }
}

/// The fields of `s`: the stretches between its spaces, of which there is one
/// more than there are spaces. A stretch may be empty.
pub open spec fn split_spec(s: Seq<u8>) -> Seq<Seq<u8>>
    decreases s.len(),
{
    let i = first_space(s);
    if 0 <= i < s.len() {
        seq![s.take(i)] + split_spec(s.skip(i + 1))
    } else {
        seq![s]
    }
}

/// The texts that `fields` holds.
pub open spec fn texts(fields: Vec<Vec<u8>>) -> Seq<Seq<u8>> {
    Seq::new(fields.len() as nat, |i: int| fields[i]@)
}

/// The first space of `s` is at `k` if no space stands before `k` and either
/// one stands at `k` or `s` ends there.
pub proof fn lemma_first_space(s: Seq<u8>, k: int)
    requires
        0 <= k <= s.len(),
        forall|j: int| 0 <= j < k ==> s[j] != SPACE,
        k == s.len() || s[k] == SPACE,
    ensures
        first_space(s) == k,
    decreases k,
{
    if k > 0 {
        let rest = s.drop_first();
        assert forall|j: int| 0 <= j < k - 1 implies rest[j] != SPACE by {
            assert(rest[j] == s[j + 1]);
        }
        lemma_first_space(rest, k - 1);
    }
}

/// Splits the part of `text` that begins at `from` at each space.
pub fn split(text: &[u8], from: usize) -> (fields: Vec<Vec<u8>>)
    requires
        from <= text.len(),
    ensures
        texts(fields) == split_spec(text@.skip(from as int)),
{
    let mut fields: Vec<Vec<u8>> = Vec::new();
    let mut current: Vec<u8> = Vec::new();
    let mut i: usize = from;
    let ghost mut start: int = from as int;
    while i < text.len()
        invariant
            from <= start <= i <= text.len(),
            current@ == text@.subrange(start, i as int),
            forall|j: int| start <= j < i ==> text@[j] != SPACE,
            split_spec(text@.skip(from as int)) == texts(fields) + split_spec(text@.skip(start)),
        decreases text.len() - i,
    {
        let byte = text[i];
        if byte == SPACE {
            proof {
                let tail = text@.skip(start);
                let k = i - start;
                assert forall|j: int| 0 <= j < k implies tail[j] != SPACE by {
                    assert(tail[j] == text@[start + j]);
                }
                lemma_first_space(tail, k);
                assert(tail.take(k) =~= current@);
                assert(tail.skip(k + 1) =~= text@.skip(i + 1));
            }
            let ghost before = texts(fields);
            fields.push(current);
            current = Vec::new();
            proof {
                assert(texts(fields) =~= before + seq![text@.subrange(start, i as int)]);
                start = i + 1;
                assert(current@ =~= text@.subrange(start, i + 1));
            }
        } else {
            current.push(byte);
            assert(current@ =~= text@.subrange(start, i + 1));
        }
        i += 1;
    }
    proof {
        let tail = text@.skip(start);
        assert forall|j: int| 0 <= j < tail.len() implies tail[j] != SPACE by {
            assert(tail[j] == text@[start + j]);
        }
        lemma_first_space(tail, tail.len() as int);
        assert(tail =~= current@);
    }
    let ghost before = texts(fields);
    fields.push(current);
    assert(texts(fields) =~= before + seq![text@.skip(start)]);
    fields
}

/// `s` with the first `n` pairs of slashes replaced by a space each, pairs
/// being looked for from the left and never overlapping.
pub open spec fn replace_pairs_spec(s: Seq<u8>, n: nat) -> Seq<u8>
    decreases s.len(),
{
    if n == 0 || s.len() < 2 {
        s
    } else if s[0] == SLASH && s[1] == SLASH {
        seq![SPACE] + replace_pairs_spec(s.skip(2), (n - 1) as nat)
    } else {
        seq![s[0]] + replace_pairs_spec(s.skip(1), n)
    }
}

/// Replaces the first `n` pairs of slashes in the part of `text` that begins
/// at `from` by a space each.
pub fn replace_pairs(text: &[u8], from: usize, n: usize) -> (out: Vec<u8>)
    requires
        from <= text.len(),
    ensures
        out@ == replace_pairs_spec(text@.skip(from as int), n as nat),
{
    let mut out: Vec<u8> = Vec::new();
    let mut i: usize = from;
    let mut left: usize = n;
    while i < text.len()
        invariant
            from <= i <= text.len(),
            replace_pairs_spec(text@.skip(from as int), n as nat) == out@ + replace_pairs_spec(
                text@.skip(i as int),
                left as nat,
            ),
        decreases text.len() - i,
    {
        let ghost tail = text@.skip(i as int);
        let ghost before = out@;
        if left > 0 && i + 1 < text.len() && text[i] == SLASH && text[i + 1] == SLASH {
            out.push(SPACE);
            proof {
                assert(tail[0] == text@[i as int] && tail[1] == text@[i + 1]);
                assert(tail.skip(2) =~= text@.skip(i + 2));
                assert(out@ =~= before + seq![SPACE]);
            }
            i += 2;
            left -= 1;
        } else {
            out.push(text[i]);
            proof {
                assert(tail[0] == text@[i as int]);
                assert(tail.skip(1) =~= text@.skip(i + 1));
                assert(out@ =~= before + seq![tail[0]]);
                if left == 0 || tail.len() < 2 {
                    assert(replace_pairs_spec(tail.skip(1), left as nat) =~= tail.skip(1));
                    assert(tail =~= seq![tail[0]] + tail.skip(1));
                } else {
                    assert(tail[1] == text@[i + 1]);
                }
            }
            i += 1;
        }
    }
    assert(text@.skip(i as int) =~= Seq::<u8>::empty());
    assert(out@ + Seq::<u8>::empty() =~= out@);
    out
}

/// The number that the decimal digits `s` write.
pub open spec fn digits_value(s: Seq<u8>) -> nat
    decreases s.len(),
{
    if s.len() == 0 {
        0
    } else {
        digits_value(s.drop_last()) * 10 + (s.last() - DIGIT_ZERO) as nat
    }
}

/// Whether `s` is one decimal digit or more, and nothing else.
pub open spec fn is_digits(s: Seq<u8>) -> bool {
    s.len() > 0 && forall|i: int| 0 <= i < s.len() ==> DIGIT_ZERO <= #[trigger] s[i] <= DIGIT_NINE
}

/// The index that a field writes: decimal digits, with or without a plus sign
/// before them, whose number fits the machine. No other field writes an index.
pub open spec fn index_spec(s: Seq<u8>) -> Option<usize> {
    let digits = if s.len() > 0 && s[0] == PLUS {
        s.skip(1)
    } else {
        s
    };
    if is_digits(digits) && digits_value(digits) <= usize::MAX {
        Some(digits_value(digits) as usize)
    } else {
        None
    }
}

/// The number that digits write is at least the number that fewer of them write.
pub proof fn lemma_digits_value_grows(s: Seq<u8>, k: int)
    requires
        is_digits(s),
        0 <= k <= s.len(),
    ensures
        digits_value(s.take(k)) <= digits_value(s),
    decreases s.len() - k,
{
    if k == s.len() {
        assert(s.take(k) =~= s);
    } else {
        lemma_digits_value_grows(s, k + 1);
        let longer = s.take(k + 1);
        assert(longer.drop_last() =~= s.take(k));
        assert(longer.last() == s[k]);
    }
}

/// Reads the index that `field` writes.
pub fn parse_index(field: &[u8]) -> (r: Option<usize>)
    ensures
        r == index_spec(field@),
{
    let from: usize = if field.len() > 0 && field[0] == PLUS {
        1
    } else {
        0
    };
    let ghost digits = field@.skip(from as int);
    assert(field@.skip(0) =~= field@);
    if from == field.len() {
        return None;
    }
    let mut value: usize = 0;
    let mut i: usize = from;
    while i < field.len()
        invariant
            from <= i <= field.len(),
            from < field.len(),
            digits == if field@.len() > 0 && field@[0] == PLUS { field@.skip(1) } else { field@ },
            digits == field@.skip(from as int),
            forall|j: int| 0 <= j < i - from ==> DIGIT_ZERO <= #[trigger] digits[j] <= DIGIT_NINE,
            value == digits_value(digits.take(i - from)),
        decreases field.len() - i,
    {
        let byte = field[i];
        assert(digits[i - from] == byte);
        if byte < DIGIT_ZERO || byte > DIGIT_NINE {
            assert(!is_digits(digits));
            return None;
        }
        let digit: usize = (byte - DIGIT_ZERO) as usize;
        let ghost longer = digits.take(i - from + 1);
        proof {
            assert(longer.drop_last() =~= digits.take(i - from));
            assert(longer.last() == byte);
        }
        if value > (usize::MAX - digit) / 10 {
            proof {
                assert(digits_value(longer) > usize::MAX);
                if is_digits(digits) {
                    lemma_digits_value_grows(digits, i - from + 1);
                }
            }
            return None;
        }
        value = value * 10 + digit;
        i += 1;
    }
    assert(digits.take(i - from) =~= digits);
    Some(value)
}

/// The corners of a triangle, each as the place, counted from 0, of a vertex
/// among the vertices and of a normal among the normals read so far.
#[derive(Clone, Copy, Debug, PartialEq, Eq)]
pub struct Face {
    pub vertices: [usize; 3],
    pub normals: [usize; 3],
}

/// Why a line that begins like a face holds none.
#[derive(Clone, Copy, Debug, PartialEq, Eq)]
pub enum FaceError {
    /// There are fewer than six fields.
    MissingField,
    /// One of the first six fields writes no index.
    InvalidIndex,
}

/// The place counted from 0 that a file writes as `index`, counting from 1.
/// A file that writes 0 means the first place too.
pub open spec fn zero_based_spec(index: usize) -> usize {
    if index == 0 {
        0
    } else {
        (index - 1) as usize
    }
}

#[verifier::when_used_as_spec(zero_based_spec)]
pub fn zero_based(index: usize) -> (r: usize)
    ensures
        r == zero_based_spec(index),
{
    if index == 0 {
        0
    } else {
        index - 1
    }
}

/// The six fields of a face: `text` with its first three pairs of slashes
/// made spaces, split at each space.
pub open spec fn face_fields(text: Seq<u8>) -> Seq<Seq<u8>> {
    split_spec(replace_pairs_spec(text, 3))
}

/// The face that `text` writes as `v//n v//n v//n`: vertex and normal index
/// of each corner in turn, counted from 1.
pub open spec fn face_spec(text: Seq<u8>) -> Result<Face, FaceError> {
    let fields = face_fields(text);
    if fields.len() < 6 {
        Err(FaceError::MissingField)
    } else if exists|k: int| 0 <= k < 6 && index_spec(#[trigger] fields[k]) is None {
        Err(FaceError::InvalidIndex)
    } else {
        Ok(
            Face {
                vertices: [
                    zero_based(index_spec(fields[0])->0),
                    zero_based(index_spec(fields[2])->0),
                    zero_based(index_spec(fields[4])->0),
                ],
                normals: [
                    zero_based(index_spec(fields[1])->0),
                    zero_based(index_spec(fields[3])->0),
                    zero_based(index_spec(fields[5])->0),
                ],
            },
        )
    }
}

/// Reads the face that the part of `text` that begins at `from` writes.
pub fn parse_face(text: &[u8], from: usize) -> (r: Result<Face, FaceError>)
    requires
        from <= text.len(),
    ensures
        r == face_spec(text@.skip(from as int)),
{
    let spaced = replace_pairs(text, from, 3);
    let fields = split(spaced.as_slice(), 0);
    assert(spaced@.skip(0) =~= spaced@);
    let ghost wanted = face_fields(text@.skip(from as int));
    assert(texts(fields) == wanted);
    if fields.len() < 6 {
        return Err(FaceError::MissingField);
    }
    let mut indices: [usize; 6] = [0, 0, 0, 0, 0, 0];
    let mut k: usize = 0;
    while k < 6
        invariant
            k <= 6,
            fields.len() >= 6,
            texts(fields) == wanted,
            wanted == face_fields(text@.skip(from as int)),
            forall|j: int| 0 <= j < k ==> index_spec(#[trigger] wanted[j]) == Some(indices[j]),
        decreases 6 - k,
    {
        assert(texts(fields)[k as int] == fields[k as int]@);
        match parse_index(fields[k].as_slice()) {
            Some(index) => {
                indices[k] = index;
            },
            None => {
                assert(index_spec(wanted[k as int]) is None);
                return Err(FaceError::InvalidIndex);
            },
        }
        k += 1;
    }
    let face = Face {
        vertices: [zero_based(indices[0]), zero_based(indices[2]), zero_based(indices[4])],
        normals: [zero_based(indices[1]), zero_based(indices[3]), zero_based(indices[5])],
    };
    proof {
        let expected = face_spec(text@.skip(from as int));
        assert(expected is Ok);
        assert(face.vertices =~= expected->Ok_0.vertices);
        assert(face.normals =~= expected->Ok_0.normals);
    }
    Ok(face)
}

/// What a line of a model file holds.
#[derive(Clone, Copy, Debug, PartialEq, Eq)]
pub enum RecordKind {
    /// A vertex: `v` and its coordinates.
    Vertex,
    /// A normal: `vn` and its coordinates.
    Normal,
    /// A face: `f` and its corners.
    Face,
    /// Anything else, which a reader passes over.
    Other,
}

/// A line of a model file, read as far as it can be without reading numbers
/// with a fraction.
#[derive(Debug)]
pub enum Record {
    /// A vertex, with the fields after `v`, which write its coordinates.
    Vertex(Vec<Vec<u8>>),
    /// A normal, with the fields after `vn`, which write its coordinates.
    Normal(Vec<Vec<u8>>),
    /// A face.
    Face(Face),
    /// Anything else.
    Other,
}

/// What `line` holds, by the word before its first space: `v`, `vn` or `f`.
/// A line without a space holds nothing of these.
pub open spec fn kind_spec(line: Seq<u8>) -> RecordKind {
    let i = first_space(line);
    if !(0 <= i < line.len()) {
        RecordKind::Other
    } else if line.take(i) == seq![LETTER_V] {
        RecordKind::Vertex
    } else if line.take(i) == seq![LETTER_V, LETTER_N] {
        RecordKind::Normal
    } else if line.take(i) == seq![LETTER_F] {
        RecordKind::Face
    } else {
        RecordKind::Other
    }
}

/// The part of `line` after its first space.
pub open spec fn payload(line: Seq<u8>) -> Seq<u8> {
    line.skip(first_space(line) + 1)
}

/// Whether `r` is what `line` reads as.
pub open spec fn reads_as(line: Seq<u8>, r: Result<Record, FaceError>) -> bool {
    match kind_spec(line) {
        RecordKind::Vertex => r matches Ok(Record::Vertex(fields)) && texts(fields) == split_spec(
            payload(line),
        ),
        RecordKind::Normal => r matches Ok(Record::Normal(fields)) && texts(fields) == split_spec(
            payload(line),
        ),
        RecordKind::Face => match face_spec(payload(line)) {
            Ok(face) => r matches Ok(Record::Face(found)) && found == face,
            Err(error) => r matches Err(found) && found == error,
        },
        RecordKind::Other => r matches Ok(Record::Other),
    }
}

/// Reads a line of a model file.
pub fn parse_record(line: &[u8]) -> (r: Result<Record, FaceError>)
    ensures
        reads_as(line@, r),
{
    let mut i: usize = 0;
    while i < line.len() && line[i] != SPACE
        invariant
            i <= line.len(),
            forall|j: int| 0 <= j < i ==> line@[j] != SPACE,
        decreases line.len() - i,
    {
        i += 1;
    }
    proof {
        lemma_first_space(line@, i as int);
    }
    if i == line.len() {
        return Ok(Record::Other);
    }
    let ghost word = line@.take(i as int);
    proof {
        let v = seq![LETTER_V];
        let vn = seq![LETTER_V, LETTER_N];
        let f = seq![LETTER_F];
        assert(v.len() == 1 && v[0] == LETTER_V);
        assert(vn.len() == 2 && vn[0] == LETTER_V && vn[1] == LETTER_N);
        assert(f.len() == 1 && f[0] == LETTER_F);
        assert(word.len() == i);
        assert(forall|j: int| 0 <= j < i ==> word[j] == line@[j]);
    }
    if i == 1 && line[0] == LETTER_V {
        assert(word =~= seq![LETTER_V]);
        Ok(Record::Vertex(split(line, i + 1)))
    } else if i == 2 && line[0] == LETTER_V && line[1] == LETTER_N {
        assert(word =~= seq![LETTER_V, LETTER_N]);
        Ok(Record::Normal(split(line, i + 1)))
    } else if i == 1 && line[0] == LETTER_F {
        assert(word =~= seq![LETTER_F]);
        match parse_face(line, i + 1) {
            Ok(face) => Ok(Record::Face(face)),
            Err(error) => Err(error),
        }
    } else {
        assert(word != seq![LETTER_V]) by {
            if word == seq![LETTER_V] {
                assert(word[0] == line@[0]);
            }
        }
        assert(word != seq![LETTER_F]) by {
            if word == seq![LETTER_F] {
                assert(word[0] == line@[0]);
            }
        }
        assert(word != seq![LETTER_V, LETTER_N]) by {
            if word == seq![LETTER_V, LETTER_N] {
                assert(word[0] == line@[0] && word[1] == line@[1]);
            }
        }
        Ok(Record::Other)
    }
}

/// What has been read of a model file: its vertices and normals, and the
/// triangles that its faces made of them.
#[derive(Debug)]
pub struct MeshReader {
    pub vertices: Vec<Vector3>,
    pub normals: Vec<Vector3>,
    pub triangles: Vec<Triangle>,
}

impl MeshReader {
    /// Whether every corner of `face` names a vertex and a normal that have
    /// been read.
    pub open spec fn holds(&self, face: Face) -> bool {
        forall|k: int|
            0 <= k < 3 ==> (#[trigger] face.vertices[k]) < self.vertices.len() && face.normals[k]
                < self.normals.len()
    }

    /// The triangle whose corners `face` names.
    pub open spec fn triangle_of(&self, face: Face) -> Triangle {
        Triangle {
            vertices: [
                self.vertices[face.vertices[0] as int],
                self.vertices[face.vertices[1] as int],
                self.vertices[face.vertices[2] as int],
            ],
            normals: [
                self.normals[face.normals[0] as int],
                self.normals[face.normals[1] as int],
                self.normals[face.normals[2] as int],
            ],
        }
    }

    /// A reader that has read nothing.
    pub fn new() -> (r: MeshReader)
        ensures
            r.vertices@.len() == 0,
            r.normals@.len() == 0,
            r.triangles@.len() == 0,
    {
        MeshReader { vertices: Vec::new(), normals: Vec::new(), triangles: Vec::new() }
    }

    /// Takes in a vertex.
    pub fn vertex(&mut self, vertex: Vector3)
        ensures
            final(self).vertices@ == old(self).vertices@.push(vertex),
            final(self).normals@ == old(self).normals@,
            final(self).triangles@ == old(self).triangles@,
    {
        self.vertices.push(vertex);
    }

    /// Takes in a normal.
    pub fn normal(&mut self, normal: Vector3)
        ensures
            final(self).vertices@ == old(self).vertices@,
            final(self).normals@ == old(self).normals@.push(normal),
            final(self).triangles@ == old(self).triangles@,
    {
        self.normals.push(normal);
    }

    /// Takes in a face, making a triangle of the vertices and normals that it
    /// names. A face that names one that has not been read is refused, and
    /// nothing changes.
    pub fn face(&mut self, face: &Face) -> (taken: bool)
        ensures
            taken == old(self).holds(*face),
            final(self).vertices@ == old(self).vertices@,
            final(self).normals@ == old(self).normals@,
            final(self).triangles@ == if taken {
                old(self).triangles@.push(old(self).triangle_of(*face))
            } else {
                old(self).triangles@
            },
    {
        let v = face.vertices;
        let n = face.normals;
        let vertices = self.vertices.len();
        let normals = self.normals.len();
        if v[0] < vertices && v[1] < vertices && v[2] < vertices && n[0] < normals && n[1]
            < normals && n[2] < normals {
            let triangle = Triangle::new(
                [self.vertices[v[0]], self.vertices[v[1]], self.vertices[v[2]]],
                [self.normals[n[0]], self.normals[n[1]], self.normals[n[2]]],
            );
            proof {
                let expected = self.triangle_of(*face);
                assert(triangle.vertices =~= expected.vertices);
                assert(triangle.normals =~= expected.normals);
            }
            self.triangles.push(triangle);
            true
        } else {
            proof {
                if self.holds(*face) {
                    assert(face.vertices[0] < self.vertices.len());
                    assert(face.vertices[1] < self.vertices.len());
                    assert(face.vertices[2] < self.vertices.len());
                }
            }
            false
        }
    }

    /// The mesh of the triangles read, in the order of their faces.
    pub fn finish(self) -> (r: Mesh)
        ensures
            r.triangles@ == self.triangles@,
    {
        Mesh::new(self.triangles)
    }
}

} // verus!
