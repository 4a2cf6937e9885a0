//! The text format of a model: one directive to a line, words separated by
//! blanks.

use vstd::prelude::*;
use vstd::slice::slice_subrange;
use crate::math::{Vec2, Vec2f, Vec3f};
use crate::model::Model;
use crate::number::{
    find, fixed_or_zero, index_or_none, lemma_find_from_beyond, lemma_fixed_in_range, read_fixed,
    read_index, scan,
};

verus! {

/// Whether a byte separates words: a space, a tab, or another of the
/// control characters from tab to carriage return.
pub open spec fn is_space(b: u8) -> bool {
    b == 32 || 9 <= b <= 13
}

/// The first position at or after `pos` that holds no blank.
pub open spec fn skip_spaces(s: Seq<u8>, pos: int) -> int
    decreases s.len() - pos,
{
    if 0 <= pos < s.len() && is_space(s[pos]) {
        skip_spaces(s, pos + 1)
    } else {
        pos
    }
}

/// The first position at or after `pos` that holds a blank.
pub open spec fn skip_word(s: Seq<u8>, pos: int) -> int
    decreases s.len() - pos,
{
    if 0 <= pos < s.len() && !is_space(s[pos]) {
        skip_word(s, pos + 1)
    } else {
        pos
    }
}

/// Where word `n` of a line starts, words counted from zero; the length of
/// the line or more where the line has fewer words.
pub open spec fn word_start(s: Seq<u8>, n: nat) -> int
    decreases n,
{
    if n == 0 {
        skip_spaces(s, 0)
    } else {
        skip_spaces(s, skip_word(s, word_start(s, (n - 1) as nat)))
    }
}

/// Whether a line has a word `n`.
pub open spec fn has_word(s: Seq<u8>, n: nat) -> bool {
    word_start(s, n) < s.len()
}

/// Word `n` of a line.
pub open spec fn word(s: Seq<u8>, n: nat) -> Seq<u8> {
    s.subrange(word_start(s, n), skip_word(s, word_start(s, n)))
}

/// Where field `j` of a word starts, fields being separated by slashes.
pub open spec fn field_start(w: Seq<u8>, j: nat) -> int
    decreases j,
{
    if j == 0 {
        0
    } else {
        find(w, field_start(w, (j - 1) as nat), 47) + 1
    }
}

/// Field `j` of a word; empty where the word has fewer fields.
pub open spec fn field(w: Seq<u8>, j: nat) -> Seq<u8> {
    if field_start(w, j) <= w.len() {
        w.subrange(field_start(w, j), find(w, field_start(w, j), 47))
    } else {
        Seq::empty()
    }
}

/// What a model holds, as plain sequences.
pub ghost struct Mesh {
    pub vertices: Seq<Vec3f>,
    pub normals: Seq<Vec3f>,
    pub texture_coords: Seq<Vec2f>,
    pub faces: Seq<Seq<i32>>,
}

/// The triple of numbers in words one to three of a line.
pub open spec fn triple_of(line: Seq<u8>) -> Vec3f {
    Vec3f {
        x: fixed_or_zero(word(line, 1)),
        y: fixed_or_zero(word(line, 2)),
        z: fixed_or_zero(word(line, 3)),
    }
}

/// The pair of numbers in words one and two of a line.
pub open spec fn pair_of(line: Seq<u8>) -> Vec2f {
    Vec2 { x: fixed_or_zero(word(line, 1)), y: fixed_or_zero(word(line, 2)) }
}

/// The nine indices of a face line: for each of words one to three, its
/// first three fields.
pub open spec fn face_of(line: Seq<u8>) -> Seq<i32> {
    Seq::new(9, |i: int| index_or_none(field(word(line, (i / 3 + 1) as nat), (i % 3) as nat)))
}

/// Whether a line starts with the given two bytes.
pub open spec fn starts_with2(line: Seq<u8>, a: u8, b: u8) -> bool {
    line.len() >= 2 && line[0] == a && line[1] == b
}

/// Whether a line starts with the given three bytes.
pub open spec fn starts_with3(line: Seq<u8>, a: u8, b: u8, c: u8) -> bool {
    line.len() >= 3 && line[0] == a && line[1] == b && line[2] == c
}

/// The mesh after one more line.
///
/// A line that starts with `v`, `vt`, `vn` or `f` and a space adds a
/// position, a texture coordinate, a normal or a face, if it has the three
/// (for `vt`, two) words that the directive needs; further words are not
/// looked at. Every other line changes nothing.
pub open spec fn absorb(mesh: Mesh, line: Seq<u8>) -> Mesh {
    if starts_with2(line, 118, 32) {
        if has_word(line, 3) {
            Mesh { vertices: mesh.vertices.push(triple_of(line)), ..mesh }
        } else {
            mesh
        }
    } else if starts_with3(line, 118, 116, 32) {
        if has_word(line, 2) {
            Mesh { texture_coords: mesh.texture_coords.push(pair_of(line)), ..mesh }
        } else {
            mesh
        }
    } else if starts_with3(line, 118, 110, 32) {
        if has_word(line, 3) {
            Mesh { normals: mesh.normals.push(triple_of(line)), ..mesh }
        } else {
            mesh
        }
    } else if starts_with2(line, 102, 32) {
        if has_word(line, 3) {
            Mesh { faces: mesh.faces.push(face_of(line)), ..mesh }
        } else {
            mesh
        }
    } else {
        mesh
    }
}

/// The mesh after the lines of `text` from position `pos` on, lines being
/// separated by line feeds.
pub open spec fn absorb_from(text: Seq<u8>, pos: int, mesh: Mesh) -> Mesh
    decreases text.len() - pos,
{
    if pos < 0 || pos >= text.len() {
        mesh
    } else {
        let end = find(text, pos, 10);
        if pos <= end < text.len() {
            absorb_from(text, end + 1, absorb(mesh, text.subrange(pos, end)))
        } else {
            absorb(mesh, text.subrange(pos, text.len() as int))
        }
    }
}

/// The mesh that holds nothing.
pub open spec fn parsed_start() -> Mesh {
    Mesh {
        vertices: Seq::empty(),
        normals: Seq::empty(),
        texture_coords: Seq::empty(),
        faces: Seq::empty(),
    }
}

/// The mesh that a text describes.
pub open spec fn parsed(text: Seq<u8>) -> Mesh {
    absorb_from(text, 0, parsed_start())
}

/// Whether every position and every normal of a mesh lies within the
/// coordinate range.
pub open spec fn in_range(mesh: Mesh) -> bool {
    &&& forall|i: int| 0 <= i < mesh.vertices.len() ==> (#[trigger] mesh.vertices[i]).in_range()
    &&& forall|i: int| 0 <= i < mesh.normals.len() ==> (#[trigger] mesh.normals[i]).in_range()
}

/// Taking in a line keeps a mesh within the coordinate range.
proof fn lemma_absorb_in_range(mesh: Mesh, line: Seq<u8>)
    requires
        in_range(mesh),
    ensures
        in_range(absorb(mesh, line)),
{
    lemma_fixed_in_range(word(line, 1));
    lemma_fixed_in_range(word(line, 2));
    lemma_fixed_in_range(word(line, 3));
    assert(triple_of(line).in_range());
}

/// Reading the rest of a text keeps a mesh within the coordinate range.
proof fn lemma_absorb_from_in_range(text: Seq<u8>, pos: int, mesh: Mesh)
    requires
        in_range(mesh),
    ensures
        in_range(absorb_from(text, pos, mesh)),
    decreases text.len() - pos,
{
    if 0 <= pos < text.len() {
        let end = find(text, pos, 10);
        if pos <= end < text.len() {
            lemma_absorb_in_range(mesh, text.subrange(pos, end));
            lemma_absorb_from_in_range(text, end + 1, absorb(mesh, text.subrange(pos, end)));
        } else {
            lemma_absorb_in_range(mesh, text.subrange(pos, text.len() as int));
        }
    }
}

/// Every position and every normal that a text describes lies within the
/// coordinate range: what a model still has to be checked for before it is
/// drawn are the indices of its faces.
pub proof fn lemma_parsed_in_range(text: Seq<u8>)
    ensures
        in_range(parsed(text)),
{
    lemma_absorb_from_in_range(text, 0, parsed_start());
}

/// The first position at or after `pos` that holds no blank.
fn scan_spaces(s: &[u8], pos: usize) -> (r: usize)
    requires
        pos <= s.len(),
    ensures
        r == skip_spaces(s@, pos as int),
        pos <= r <= s.len(),
{
    let mut i: usize = pos;
    while i < s.len() && blank(s[i])
        invariant
            pos <= i <= s.len(),
            skip_spaces(s@, pos as int) == skip_spaces(s@, i as int),
        decreases s.len() - i,
    {
        i += 1;
    }
    i
}

/// The first position at or after `pos` that holds a blank.
fn scan_word(s: &[u8], pos: usize) -> (r: usize)
    requires
        pos <= s.len(),
    ensures
        r == skip_word(s@, pos as int),
        pos <= r <= s.len(),
{
    let mut i: usize = pos;
    while i < s.len() && !blank(s[i])
        invariant
            pos <= i <= s.len(),
            skip_word(s@, pos as int) == skip_word(s@, i as int),
        decreases s.len() - i,
    {
        i += 1;
    }
    i
}

/// Whether a byte separates words.
fn blank(b: u8) -> (r: bool)
    ensures
        r == is_space(b),
{
    b == 32 || (9 <= b && b <= 13)
}

/// Where word `n` of a line starts and ends.
fn locate(line: &[u8], n: usize) -> (r: (usize, usize))
    ensures
        r.0 == word_start(line@, n as nat),
        r.1 == skip_word(line@, r.0 as int),
        r.0 <= r.1 <= line.len(),
{
    let mut start: usize = scan_spaces(line, 0);
    let mut end: usize = scan_word(line, start);
    let mut i: usize = 0;
    while i < n
        invariant
            i <= n,
            start == word_start(line@, i as nat),
            end == skip_word(line@, start as int),
            start <= end <= line.len(),
        decreases n - i,
    {
        start = scan_spaces(line, end);
        end = scan_word(line, start);
        i += 1;
    }
    (start, end)
}

/// The number in word `n` of a line that has such a word.
fn number_at(line: &[u8], n: usize) -> (r: i32)
    ensures
        r == fixed_or_zero(word(line@, n as nat)),
{
    let (start, end) = locate(line, n);
    read_fixed(slice_subrange(line, start, end))
}

/// The index in field `j` of a word.
fn index_at(w: &[u8], j: usize) -> (r: i32)
    ensures
        r == index_or_none(field(w@, j as nat)),
{
    let mut start: usize = 0;
    let mut i: usize = 0;
    while i < j
        invariant
            i <= j,
            start <= w.len(),
            start == field_start(w@, i as nat),
        decreases j - i,
    {
        let end: usize = scan(w, start, 47);
        if end >= w.len() {
            proof {
                lemma_field_start_grows(w@, (i + 1) as nat, j as nat);
            }
            assert(field(w@, j as nat) =~= Seq::<u8>::empty());
            return read_index(slice_subrange(w, 0, 0));
        }
        start = end + 1;
        i += 1;
    }
    let end: usize = scan(w, start, 47);
    read_index(slice_subrange(w, start, end))
}

/// Once the fields of a word have run out, every later field starts beyond
/// the word as well.
proof fn lemma_field_start_grows(w: Seq<u8>, i: nat, j: nat)
    requires
        i <= j,
        field_start(w, i) > w.len(),
    ensures
        field_start(w, j) > w.len(),
    decreases j - i,
{
    if i < j {
        lemma_field_start_grows(w, i, (j - 1) as nat);
        lemma_find_from_beyond(w, field_start(w, (j - 1) as nat), 47);
    }
}

/// The nine indices of a face line that has three words after its directive.
fn read_face(line: &[u8]) -> (face: [i32; 9])
    ensures
        face@ == face_of(line@),
{
    let mut face: [i32; 9] = [0, 0, 0, 0, 0, 0, 0, 0, 0];
    let mut g: usize = 0;
    while g < 3
        invariant
            g <= 3,
            forall|i: int|
                0 <= i < 3 * g ==> face@[i] == index_or_none(
                    field(word(line@, (i / 3 + 1) as nat), (i % 3) as nat),
                ),
        decreases 3 - g,
    {
        let (start, end) = locate(line, g + 1);
        let w: &[u8] = slice_subrange(line, start, end);
        let a: i32 = index_at(w, 0);
        let b: i32 = index_at(w, 1);
        let c: i32 = index_at(w, 2);
        face[3 * g] = a;
        face[3 * g + 1] = b;
        face[3 * g + 2] = c;
        g += 1;
    }
    assert(face@ =~= face_of(line@));
    face
}

impl Model {
    /// What the model holds, as plain sequences.
    pub open spec fn mesh(&self) -> Mesh {
        Mesh {
            vertices: self.vertices@,
            normals: self.normals@,
            texture_coords: self.texture_coords@,
            faces: Seq::new(self.faces@.len(), |f: int| self.faces@[f]@),
        }
    }

    /// Takes one line of text into the model.
    fn absorb_line(&mut self, line: &[u8])
        ensures
            final(self).mesh() == absorb(old(self).mesh(), line@),
    {
        let n: usize = line.len();
        if n >= 2 && line[0] == 118 && line[1] == 32 {
            let (start, _end) = locate(line, 3);
            if start < n {
                let v: Vec3f = Vec3f::new(number_at(line, 1), number_at(line, 2), number_at(line, 3));
                self.vertices.push(v);
            }
        } else if n >= 3 && line[0] == 118 && line[1] == 116 && line[2] == 32 {
            let (start, _end) = locate(line, 2);
            if start < n {
                let t: Vec2f = Vec2::new(number_at(line, 1), number_at(line, 2));
                self.texture_coords.push(t);
                assert(t == pair_of(line@));
            }
        } else if n >= 3 && line[0] == 118 && line[1] == 110 && line[2] == 32 {
            let (start, _end) = locate(line, 3);
            if start < n {
                let v: Vec3f = Vec3f::new(number_at(line, 1), number_at(line, 2), number_at(line, 3));
                self.normals.push(v);
            }
        } else if n >= 2 && line[0] == 102 && line[1] == 32 {
            let (start, _end) = locate(line, 3);
            if start < n {
                let face: [i32; 9] = read_face(line);
                self.faces.push(face);
                assert(self.mesh().faces =~= old(self).mesh().faces.push(face_of(line@)));
            }
        }
        assert(self.mesh().faces =~= old(self).mesh().faces || self.mesh().faces
            =~= old(self).mesh().faces.push(face_of(line@)));
    }

    /// The model that a text describes.
    ///
    /// The text is read line by line. A line that starts with `v`, `vt`,
    /// `vn` or `f` and a space gives a position, a texture coordinate, a
    /// normal or a face; a word of such a line that spells no number counts
    /// as zero, a line with too few words is passed over, and so is every
    /// other line. The indices of a face are counted from one in the text
    /// and from zero in the model.
    pub fn parse(text: &[u8]) -> (model: Model)
        ensures
            model.mesh() == parsed(text@),
            model.faces@.len() == parsed(text@).faces.len(),
            forall|f: int|
                0 <= f < model.faces@.len() ==> (#[trigger] model.faces@[f])@ == parsed(
                    text@,
                ).faces[f],
            in_range(model.mesh()),
    {
        proof {
            lemma_parsed_in_range(text@);
        }
        let mut model: Model = Model {
            vertices: Vec::new(),
            normals: Vec::new(),
            texture_coords: Vec::new(),
            faces: Vec::new(),
        };
        assert(model.mesh().faces =~= Seq::<Seq<i32>>::empty());
        let len: usize = text.len();
        let mut pos: usize = 0;
        while pos < len
            invariant
                pos <= len,
                len == text.len(),
                parsed(text@) == absorb_from(text@, pos as int, model.mesh()),
            decreases len - pos,
        {
            let end: usize = scan(text, pos, 10);
            if end < len {
                model.absorb_line(slice_subrange(text, pos, end));
                pos = end + 1;
            } else {
                model.absorb_line(slice_subrange(text, pos, len));
                pos = len;
            }
        }
        proof {
            assert(model.mesh().faces.len() == model.faces@.len());
            assert forall|f: int| 0 <= f < model.faces@.len() implies (#[trigger] model.faces@[f])@
                == parsed(text@).faces[f] by {
                assert(model.mesh().faces[f] == model.faces@[f]@);
            }
        }
        model
    }
}

} // verus!
