//! What the statements of a text and the words of its corners mean.

use vstd::prelude::*;

use crate::mesh_prep::obj::{
    faces, head_of, number_at, points, statements, texture_points, Head,
};
use crate::mesh_prep::obj_mesh::{
    entry_of, particle_normals, particle_positions,
    particle_uvs, particle_words, text_triangles,
};
use crate::mesh_prep::text::{split, whole_number, words};
use crate::mesh_prep::text_laws::{decimals, lacks, law_decimals, law_split, lemma_decimals_lack};
use crate::mesh_prep::topology::ordered;
use crate::mesh_prep::weld::{
    corners, face_particles, fan, fans, law_distinct, lemma_is_corner, quad_diagonals, welded,
};

verus! {

/// The statement starts with the word.
pub open spec fn starts(line: Seq<Seq<char>>, word: Seq<char>) -> bool {
    line.len() > 0 && line[0] == word
}

/// How many of the first `k` statements start with the word.
pub open spec fn started(lines: Seq<Seq<Seq<char>>>, word: Seq<char>, k: int) -> nat
    decreases k,
{
    if k <= 0 {
        0
    } else if starts(lines[k - 1], word) {
        started(lines, word, k - 1) + 1
    } else {
        started(lines, word, k - 1)
    }
}

/// Statement `l` is number `b` of those that start with the word, counted from one.
pub open spec fn is_numbered(lines: Seq<Seq<Seq<char>>>, word: Seq<char>, b: int, l: int) -> bool {
    &&& 0 <= l < lines.len()
    &&& starts(lines[l], word)
    &&& started(lines, word, l) == b - 1
}

/// There is a statement for each number from one to as many as start with the word.
pub proof fn law_statements_are_numbered(
    lines: Seq<Seq<Seq<char>>>,
    word: Seq<char>,
    b: int,
    k: int,
) -> (l: int)
    requires
        0 <= k <= lines.len(),
        1 <= b <= started(lines, word, k),
    ensures
        0 <= l < k,
        is_numbered(lines, word, b, l),
    decreases k,
{
    if starts(lines[k - 1], word) && started(lines, word, k - 1) == b - 1 {
        k - 1
    } else {
        law_statements_are_numbered(lines, word, b, k - 1)
    }
}

/// The word that declares a position, a texture coordinate, a normal or a face.
pub open spec fn head_word(head: Head) -> Seq<char> {
    match head {
        Head::Position => seq!['v'],
        Head::Texture => seq!['v', 't'],
        Head::Normal => seq!['v', 'n'],
        Head::Face => seq!['f'],
        Head::Other => seq![],
    }
}

proof fn lemma_head(line: Seq<Seq<char>>, head: Head)
    requires
        head != Head::Other,
    ensures
        head_of(line) == head <==> starts(line, head_word(head)),
{
    let v = seq!['v'];
    let f = seq!['f'];
    let t = seq!['v', 't'];
    let n = seq!['v', 'n'];
    assert(v.len() == 1 && f.len() == 1 && t.len() == 2 && n.len() == 2);
    assert(v[0] != f[0]);
    assert(t[1] != n[1]);
}

proof fn lemma_points<S>(
    number: spec_fn(Seq<char>) -> Option<S>,
    zero: S,
    head: Head,
    lines: Seq<Seq<Seq<char>>>,
    k: int,
)
    requires
        head == Head::Position || head == Head::Normal,
        0 <= k <= lines.len(),
    ensures
        points(number, zero, head, lines.take(k)).len() == started(lines, head_word(head), k),
        forall|l: int|
            0 <= l < k && #[trigger] starts(lines[l], head_word(head)) ==> {
                let at = started(lines, head_word(head), l) as int;
                &&& at < points(number, zero, head, lines.take(k)).len()
                &&& points(number, zero, head, lines.take(k))[at] == [
                    number_at(number, zero, lines[l], 1),
                    number_at(number, zero, lines[l], 2),
                    number_at(number, zero, lines[l], 3),
                ]
            },
    decreases k,
{
    let word = head_word(head);
    if k > 0 {
        lemma_points(number, zero, head, lines, k - 1);
        assert(lines.take(k).drop_last() =~= lines.take(k - 1));
        assert(lines.take(k).last() == lines[k - 1]);
        lemma_head(lines[k - 1], head);
        let before = points(number, zero, head, lines.take(k - 1));
        let all = points(number, zero, head, lines.take(k));
        assert forall|l: int| 0 <= l < k && #[trigger] starts(lines[l], word) implies {
            let at = started(lines, word, l) as int;
            &&& at < all.len()
            &&& all[at] == [
                number_at(number, zero, lines[l], 1),
                number_at(number, zero, lines[l], 2),
                number_at(number, zero, lines[l], 3),
            ]
        } by {
            let at = started(lines, word, l) as int;
            if l < k - 1 {
                assert(at < before.len());
                assert(all[at] == before[at]);
            }
        }
    }
}

proof fn lemma_texture_points<S>(
    number: spec_fn(Seq<char>) -> Option<S>,
    zero: S,
    lines: Seq<Seq<Seq<char>>>,
    k: int,
)
    requires
        0 <= k <= lines.len(),
    ensures
        texture_points(number, zero, lines.take(k)).len() == started(
            lines,
            head_word(Head::Texture),
            k,
        ),
        forall|l: int|
            0 <= l < k && #[trigger] starts(lines[l], head_word(Head::Texture)) ==> {
                let at = started(lines, head_word(Head::Texture), l) as int;
                &&& at < texture_points(number, zero, lines.take(k)).len()
                &&& texture_points(number, zero, lines.take(k))[at] == [
                    number_at(number, zero, lines[l], 1),
                    number_at(number, zero, lines[l], 2),
                ]
            },
    decreases k,
{
    let word = head_word(Head::Texture);
    if k > 0 {
        lemma_texture_points(number, zero, lines, k - 1);
        assert(lines.take(k).drop_last() =~= lines.take(k - 1));
        assert(lines.take(k).last() == lines[k - 1]);
        lemma_head(lines[k - 1], Head::Texture);
        let before = texture_points(number, zero, lines.take(k - 1));
        let all = texture_points(number, zero, lines.take(k));
        assert forall|l: int| 0 <= l < k && #[trigger] starts(lines[l], word) implies {
            let at = started(lines, word, l) as int;
            &&& at < all.len()
            &&& all[at] == [
                number_at(number, zero, lines[l], 1),
                number_at(number, zero, lines[l], 2),
            ]
        } by {
            let at = started(lines, word, l) as int;
            if l < k - 1 {
                assert(at < before.len());
                assert(all[at] == before[at]);
            }
        }
    }
}

/// A number that is missing or cannot be read is zero. One that is there is read.
pub proof fn law_numbers<S>(
    number: spec_fn(Seq<char>) -> Option<S>,
    zero: S,
    line: Seq<Seq<char>>,
    k: int,
    v: S,
)
    requires
        0 <= k,
    ensures
        line.len() <= k ==> number_at(number, zero, line, k) == zero,
        k < line.len() && number(line[k]) is None ==> number_at(number, zero, line, k) == zero,
        k < line.len() && number(line[k]) == Some(v) ==> number_at(number, zero, line, k) == v,
{
}

/// The word of a corner that names a position, and perhaps a texture coordinate and a normal.
pub open spec fn corner_word(a: nat, b: Option<nat>, c: Option<nat>) -> Seq<char> {
    let second = match b {
        Some(n) => decimals(n),
        None => Seq::empty(),
    };
    match c {
        Some(n) => (decimals(a).push('/') + second).push('/') + decimals(n),
        None => match b {
            Some(_) => decimals(a).push('/') + second,
            None => decimals(a),
        },
    }
}

/// The statement that a number names, counted from one. Zero names the first one too.
pub open spec fn named_statement(n: nat) -> int {
    if n == 0 {
        1
    } else {
        n as int
    }
}

/// The entry that a number names, counted from one.
spec fn named(n: nat) -> Option<int> {
    Some(
        if n == 0 {
            0
        } else {
            n - 1
        },
    )
}

proof fn lemma_corner_word(a: nat, b: Option<nat>, c: Option<nat>)
    ensures
        a <= usize::MAX ==> entry_of(corner_word(a, b, c), 0) == named(a),
        match b {
            Some(n) => n <= usize::MAX ==> entry_of(corner_word(a, b, c), 1) == named(n),
            None => entry_of(corner_word(a, b, c), 1) is None,
        },
        match c {
            Some(n) => n <= usize::MAX ==> entry_of(corner_word(a, b, c), 2) == named(n),
            None => entry_of(corner_word(a, b, c), 2) is None,
        },
{
    let word = corner_word(a, b, c);
    let none = Seq::<char>::empty();
    let first = decimals(a);
    let second = match b {
        Some(n) => decimals(n),
        None => none,
    };
    let third = match c {
        Some(n) => decimals(n),
        None => none,
    };
    law_decimals(a);
    lemma_decimals_lack(a, '/');
    if let Some(n) = b {
        law_decimals(n);
        lemma_decimals_lack(n, '/');
    }
    if let Some(n) = c {
        law_decimals(n);
        lemma_decimals_lack(n, '/');
    }
    assert(lacks(second, '/'));
    assert(lacks(third, '/'));
    law_split(first, second, '/');
    law_split(second, none, '/');
    law_split(third, none, '/');
    law_split(first.push('/') + second, third, '/');
    assert(seq![first] + seq![second] =~= seq![first, second]);
    assert(seq![first, second] + seq![third] =~= seq![first, second, third]);
    let parts = split(word, '/');
    match c {
        Some(_) => {
            assert(parts == seq![first, second, third]);
        },
        None => {
            match b {
                Some(_) => {
                    assert(parts == seq![first, second]);
                },
                None => {
                    assert(parts == seq![first]);
                },
            }
        },
    }
    assert(parts[0] == first);
    if b is None {
        assert(whole_number(none) is None);
    }
}

/// A corner has the position of the position statement that its first number names, whatever the
/// others are.
pub proof fn law_corner_position<S>(
    number: spec_fn(Seq<char>) -> Option<S>,
    zero: S,
    text: Seq<char>,
    p: int,
    a: nat,
    b: Option<nat>,
    c: Option<nat>,
    l: int,
)
    requires
        0 <= p < particle_words(text).len(),
        particle_words(text)[p] == corner_word(a, b, c),
        a <= usize::MAX,
        is_numbered(statements(text), seq!['v'], named_statement(a), l),
    ensures
        particle_positions(number, zero, text)[p] == [
            number_at(number, zero, statements(text)[l], 1),
            number_at(number, zero, statements(text)[l], 2),
            number_at(number, zero, statements(text)[l], 3),
        ],
{
    let lines = statements(text);
    lemma_corner_word(a, b, c);
    lemma_points(number, zero, Head::Position, lines, lines.len() as int);
    assert(lines.take(lines.len() as int) =~= lines);
    assert(starts(lines[l], head_word(Head::Position)));
}

/// A corner has the texture coordinates of the statement that its second number names, whatever the
/// others are.
pub proof fn law_corner_uv<S>(
    number: spec_fn(Seq<char>) -> Option<S>,
    zero: S,
    text: Seq<char>,
    p: int,
    a: nat,
    b: nat,
    c: Option<nat>,
    l: int,
)
    requires
        0 <= p < particle_words(text).len(),
        particle_words(text)[p] == corner_word(a, Some(b), c),
        b <= usize::MAX,
        is_numbered(statements(text), seq!['v', 't'], named_statement(b), l),
    ensures
        particle_uvs(number, zero, text)[p] == [
            number_at(number, zero, statements(text)[l], 1),
            number_at(number, zero, statements(text)[l], 2),
        ],
{
    let lines = statements(text);
    lemma_corner_word(a, Some(b), c);
    lemma_texture_points(number, zero, lines, lines.len() as int);
    assert(lines.take(lines.len() as int) =~= lines);
    assert(starts(lines[l], head_word(Head::Texture)));
}

/// A corner whose word is the decimals of `a`, a slash and the decimals of `b` has the texture
/// coordinates of statement number `b`, whatever `a` is.
pub proof fn law_second_number_names_uv<S>(
    number: spec_fn(Seq<char>) -> Option<S>,
    zero: S,
    text: Seq<char>,
    p: int,
    a: nat,
    b: nat,
) -> (l: int)
    requires
        0 <= p < particle_words(text).len(),
        particle_words(text)[p] == decimals(a).push('/') + decimals(b),
        1 <= b <= usize::MAX,
        b <= started(statements(text), seq!['v', 't'], statements(text).len() as int),
    ensures
        is_numbered(statements(text), seq!['v', 't'], b as int, l),
        particle_uvs(number, zero, text)[p] == [
            number_at(number, zero, statements(text)[l], 1),
            number_at(number, zero, statements(text)[l], 2),
        ],
{
    let lines = statements(text);
    let l = law_statements_are_numbered(lines, seq!['v', 't'], b as int, lines.len() as int);
    assert(corner_word(a, Some(b), None) == decimals(a).push('/') + decimals(b));
    law_corner_uv(number, zero, text, p, a, b, None, l);
    l
}

/// A corner has the normal of the statement that its third number names, whatever the others are.
pub proof fn law_corner_normal<S>(
    number: spec_fn(Seq<char>) -> Option<S>,
    zero: S,
    up: [S; 3],
    text: Seq<char>,
    p: int,
    a: nat,
    b: Option<nat>,
    c: nat,
    l: int,
)
    requires
        0 <= p < particle_words(text).len(),
        particle_words(text)[p] == corner_word(a, b, Some(c)),
        c <= usize::MAX,
        is_numbered(statements(text), seq!['v', 'n'], named_statement(c), l),
    ensures
        particle_normals(number, zero, up, text)[p] == [
            number_at(number, zero, statements(text)[l], 1),
            number_at(number, zero, statements(text)[l], 2),
            number_at(number, zero, statements(text)[l], 3),
        ],
{
    let lines = statements(text);
    lemma_corner_word(a, b, Some(c));
    lemma_points(number, zero, Head::Normal, lines, lines.len() as int);
    assert(lines.take(lines.len() as int) =~= lines);
    assert(starts(lines[l], head_word(Head::Normal)));
}

/// A corner that names no texture coordinate or normal, or one that no statement declares, has zeros
/// and the normal upwards. One that names a position that no statement declares is at the origin.
pub proof fn law_missing_attributes<S>(
    number: spec_fn(Seq<char>) -> Option<S>,
    zero: S,
    up: [S; 3],
    text: Seq<char>,
    p: int,
    a: nat,
    b: Option<nat>,
    c: Option<nat>,
)
    requires
        0 <= p < particle_words(text).len(),
        particle_words(text)[p] == corner_word(a, b, c),
        a <= usize::MAX,
        b matches Some(n) ==> n <= usize::MAX,
        c matches Some(n) ==> n <= usize::MAX,
    ensures
        ({
            let lines = statements(text);
            let all = lines.len() as int;
            &&& started(lines, seq!['v'], all) < named_statement(a) ==> particle_positions(
                number,
                zero,
                text,
            )[p] == [zero, zero, zero]
            &&& b is None || started(lines, seq!['v', 't'], all) < named_statement(
                b.unwrap(),
            ) ==> particle_uvs(
                number,
                zero,
                text,
            )[p] == [zero, zero]
            &&& c is None || started(lines, seq!['v', 'n'], all) < named_statement(
                c.unwrap(),
            )
                ==> particle_normals(number, zero, up, text)[p] == up
        }),
{
    let lines = statements(text);
    lemma_corner_word(a, b, c);
    lemma_points(number, zero, Head::Position, lines, lines.len() as int);
    lemma_points(number, zero, Head::Normal, lines, lines.len() as int);
    lemma_texture_points(number, zero, lines, lines.len() as int);
    assert(lines.take(lines.len() as int) =~= lines);
}

/// Whatever the word of a corner is: where its first part reads as a number, the corner has the
/// position of the statement that the number names. So it is with the second part and the texture
/// coordinates, and with the third part and the normal.
pub proof fn law_readable_parts<S>(
    number: spec_fn(Seq<char>) -> Option<S>,
    zero: S,
    up: [S; 3],
    text: Seq<char>,
    p: int,
    k: int,
    n: usize,
    l: int,
)
    requires
        0 <= p < particle_words(text).len(),
        0 <= k < split(particle_words(text)[p], '/').len(),
        whole_number(split(particle_words(text)[p], '/')[k]) == Some(n),
    ensures
        ({
            let lines = statements(text);
            let x = number_at(number, zero, lines[l], 1);
            let y = number_at(number, zero, lines[l], 2);
            let z = number_at(number, zero, lines[l], 3);
            let at = named_statement(n as nat);
            &&& k == 0 && is_numbered(lines, seq!['v'], at, l) ==> particle_positions(
                number,
                zero,
                text,
            )[p] == [x, y, z]
            &&& k == 1 && is_numbered(lines, seq!['v', 't'], at, l) ==> particle_uvs(
                number,
                zero,
                text,
            )[p] == [x, y]
            &&& k == 2 && is_numbered(lines, seq!['v', 'n'], at, l) ==> particle_normals(
                number,
                zero,
                up,
                text,
            )[p] == [x, y, z]
        }),
{
    let lines = statements(text);
    lemma_points(number, zero, Head::Position, lines, lines.len() as int);
    lemma_points(number, zero, Head::Normal, lines, lines.len() as int);
    lemma_texture_points(number, zero, lines, lines.len() as int);
    assert(lines.take(lines.len() as int) =~= lines);
    assert(starts(lines[l], head_word(Head::Position)) || !starts(lines[l], seq!['v']));
    assert(starts(lines[l], head_word(Head::Texture)) || !starts(lines[l], seq!['v', 't']));
    assert(starts(lines[l], head_word(Head::Normal)) || !starts(lines[l], seq!['v', 'n']));
}

/// The statements of two texts with a line feed between them are those of the one and then those of
/// the other. A text of one line is one statement, of the words of the line.
pub proof fn law_statements(a: Seq<char>, b: Seq<char>)
    ensures
        statements(a.push('\n') + b) == statements(a) + statements(b),
        lacks(a, '\n') ==> statements(a) == seq![words(a)],
{
    law_split(a, b, '\n');
    assert(statements(a.push('\n') + b) =~= statements(a) + statements(b));
    if lacks(a, '\n') {
        assert(statements(a) =~= seq![words(a)]);
    }
}

/// The corners of one more face come after those of the others, unless it has fewer than three.
pub proof fn law_corners_in_order(faces: Seq<Seq<Seq<char>>>, face: Seq<Seq<char>>)
    ensures
        corners(faces.push(face)) == if face.len() < 3 {
            corners(faces)
        } else {
            corners(faces) + face
        },
{
    assert(faces.push(face).drop_last() =~= faces);
}

/// A part of a corner's word that is no number names nothing: zeros for the texture coordinates, the
/// normal upwards, and the first position.
pub proof fn law_unreadable_parts<S>(
    number: spec_fn(Seq<char>) -> Option<S>,
    zero: S,
    up: [S; 3],
    text: Seq<char>,
    p: int,
    l: int,
)
    requires
        0 <= p < particle_words(text).len(),
        is_numbered(statements(text), seq!['v'], 1, l),
    ensures
        ({
            let parts = split(particle_words(text)[p], '/');
            let unread = |k: int| k >= parts.len() || whole_number(parts[k]) is None;
            &&& unread(0) ==> particle_positions(number, zero, text)[p] == [
                number_at(number, zero, statements(text)[l], 1),
                number_at(number, zero, statements(text)[l], 2),
                number_at(number, zero, statements(text)[l], 3),
            ]
            &&& unread(1) ==> particle_uvs(number, zero, text)[p] == [zero, zero]
            &&& unread(2) ==> particle_normals(number, zero, up, text)[p] == up
        }),
{
    let lines = statements(text);
    lemma_points(number, zero, Head::Position, lines, lines.len() as int);
    assert(lines.take(lines.len() as int) =~= lines);
    assert(starts(lines[l], head_word(Head::Position)));
}

proof fn lemma_faces(lines: Seq<Seq<Seq<char>>>, k: int)
    requires
        0 <= k <= lines.len(),
    ensures
        faces(lines.take(k)).len() == started(lines, head_word(Head::Face), k),
        forall|l: int|
            0 <= l < k && #[trigger] starts(lines[l], head_word(Head::Face)) ==> {
                let at = started(lines, head_word(Head::Face), l) as int;
                &&& at < faces(lines.take(k)).len()
                &&& faces(lines.take(k))[at] == lines[l].drop_first()
            },
    decreases k,
{
    let word = head_word(Head::Face);
    if k > 0 {
        lemma_faces(lines, k - 1);
        assert(lines.take(k).drop_last() =~= lines.take(k - 1));
        assert(lines.take(k).last() == lines[k - 1]);
        lemma_head(lines[k - 1], Head::Face);
        let before = faces(lines.take(k - 1));
        let all = faces(lines.take(k));
        assert forall|l: int| 0 <= l < k && #[trigger] starts(lines[l], word) implies {
            let at = started(lines, word, l) as int;
            &&& at < all.len()
            &&& all[at] == lines[l].drop_first()
        } by {
            let at = started(lines, word, l) as int;
            if l < k - 1 {
                assert(at < before.len());
                assert(all[at] == before[at]);
            }
        }
    }
}

/// There is a face for each face statement, in their order, with a corner for each word after the
/// first.
pub proof fn law_faces(lines: Seq<Seq<Seq<char>>>, k: int, l: int, c: int)
    requires
        is_numbered(lines, seq!['f'], k + 1, l),
        0 <= c < lines[l].len() - 1,
    ensures
        faces(lines).len() == started(lines, seq!['f'], lines.len() as int),
        0 <= k < faces(lines).len(),
        faces(lines)[k].len() == lines[l].len() - 1,
        faces(lines)[k][c] == lines[l][c + 1],
{
    lemma_faces(lines, lines.len() as int);
    assert(lines.take(lines.len() as int) =~= lines);
    assert(starts(lines[l], head_word(Head::Face)));
}

/// How many triangles the first `k` faces have.
pub open spec fn triangles_before(faces: Seq<Seq<Seq<char>>>, k: int) -> int
    decreases k,
{
    if k <= 0 {
        0
    } else {
        triangles_before(faces, k - 1) + if faces[k - 1].len() < 3 {
            0
        } else {
            faces[k - 1].len() - 2
        }
    }
}

proof fn lemma_triangles(words: Seq<Seq<char>>, faces: Seq<Seq<Seq<char>>>, n: int, k: int, t: int)
    requires
        0 <= k < n <= faces.len(),
        0 <= t < faces[k].len() - 2,
    ensures
        fans(words, faces.take(n)).len() == 3 * triangles_before(faces, n),
        0 <= triangles_before(faces, k),
        triangles_before(faces, k) + t < triangles_before(faces, n),
        ({
            let q = 3 * (triangles_before(faces, k) + t);
            let all = fans(words, faces.take(n));
            &&& all[q] == words.index_of(faces[k][0]) as u32
            &&& all[q + 1] == words.index_of(faces[k][t + 1]) as u32
            &&& all[q + 2] == words.index_of(faces[k][t + 2]) as u32
        }),
    decreases n,
{
    let before = fans(words, faces.take(n - 1));
    let all = fans(words, faces.take(n));
    assert(faces.take(n).drop_last() =~= faces.take(n - 1));
    assert(faces.take(n).last() == faces[n - 1]);
    lemma_triangle_count(words, faces, n - 1);
    lemma_triangle_count(words, faces, n);
    lemma_triangle_count(words, faces, k);
    if k < n - 1 {
        lemma_triangles(words, faces, n - 1, k, t);
    } else {
        let f = face_particles(words, faces[k]);
        let q = 3 * t;
        assert(q % 3 == 0 && q / 3 == t);
        assert((q + 1) % 3 == 1 && (q + 1) / 3 == t);
        assert((q + 2) % 3 == 2 && (q + 2) / 3 == t);
        assert(fan(f)[q] == f[0]);
        assert(fan(f)[q + 1] == f[t + 1]);
        assert(fan(f)[q + 2] == f[t + 2]);
        assert(all =~= before + fan(f));
        assert(all[before.len() + q] == fan(f)[q]);
        assert(all[before.len() + q + 1] == fan(f)[q + 1]);
        assert(all[before.len() + q + 2] == fan(f)[q + 2]);
    }
}

proof fn lemma_triangle_count(words: Seq<Seq<char>>, faces: Seq<Seq<Seq<char>>>, n: int)
    requires
        0 <= n <= faces.len(),
    ensures
        0 <= triangles_before(faces, n),
        fans(words, faces.take(n)).len() == 3 * triangles_before(faces, n),
    decreases n,
{
    if n > 0 {
        lemma_triangle_count(words, faces, n - 1);
        assert(faces.take(n).drop_last() =~= faces.take(n - 1));
        assert(faces.take(n).last() == faces[n - 1]);
    }
}

/// Triangle `t` of face `k` has the first corner of the face and the corners `t + 1` and `t + 2`, in
/// this order. A face of `n` corners has `n - 2` triangles, and they come in the order of the faces.
pub proof fn law_triangles(text: Seq<char>, k: int, t: int)
    requires
        particle_words(text).len() <= u32::MAX,
        0 <= k < faces(statements(text)).len(),
        0 <= t < faces(statements(text))[k].len() - 2,
    ensures
        ({
            let all = faces(statements(text));
            let q = 3 * (triangles_before(all, k) + t);
            let tri = text_triangles(text);
            let words = particle_words(text);
            &&& tri.len() == 3 * triangles_before(all, all.len() as int)
            &&& 0 <= q && q + 2 < tri.len()
            &&& tri[q] < words.len() && words[tri[q] as int] == all[k][0]
            &&& tri[q + 1] < words.len() && words[tri[q + 1] as int] == all[k][t + 1]
            &&& tri[q + 2] < words.len() && words[tri[q + 2] as int] == all[k][t + 2]
        }),
{
    let all = faces(statements(text));
    let words = particle_words(text);
    lemma_triangles(words, all, all.len() as int, k, t);
    assert(all.take(all.len() as int) =~= all);
    lemma_corner_number(all, k, 0);
    lemma_corner_number(all, k, t + 1);
    lemma_corner_number(all, k, t + 2);
}

proof fn lemma_corner_number(faces: Seq<Seq<Seq<char>>>, k: int, c: int)
    requires
        0 <= k < faces.len(),
        faces[k].len() >= 3,
        0 <= c < faces[k].len(),
    ensures
        0 <= welded(faces).index_of(faces[k][c]) < welded(faces).len(),
        welded(faces)[welded(faces).index_of(faces[k][c])] == faces[k][c],
{
    law_distinct(corners(faces));
    lemma_is_corner(faces, k, c);
    let words = welded(faces);
    assert(words.contains(faces[k][c]));
}

/// The diagonal of a quad that gets a constraint of its own joins its second and its fourth corner,
/// the ones that its two triangles do not connect.
pub proof fn law_quad_diagonal(faces: Seq<Seq<Seq<char>>>, k: int) -> (d: int)
    requires
        welded(faces).len() <= u32::MAX,
        0 <= k < faces.len(),
        faces[k].len() == 4,
    ensures
        ({
            let words = welded(faces);
            let pairs = quad_diagonals(words, faces);
            &&& 0 <= d < pairs.len()
            &&& pairs[d].0 < words.len() && pairs[d].1 < words.len()
            &&& pairs[d].0 <= pairs[d].1
            &&& {
                ||| words[pairs[d].0 as int] == faces[k][1] && words[pairs[d].1 as int]
                    == faces[k][3]
                ||| words[pairs[d].0 as int] == faces[k][3] && words[pairs[d].1 as int]
                    == faces[k][1]
            }
        }),
{
    let words = welded(faces);
    let d = lemma_quad_row(words, faces, k);
    let f = face_particles(words, faces[k]);
    lemma_corner_number(faces, k, 1);
    lemma_corner_number(faces, k, 3);
    assert(f[1] == words.index_of(faces[k][1]) as u32);
    assert(f[3] == words.index_of(faces[k][3]) as u32);
    d
}

proof fn lemma_quad_row(words: Seq<Seq<char>>, faces: Seq<Seq<Seq<char>>>, k: int) -> (d: int)
    requires
        0 <= k < faces.len(),
        faces[k].len() == 4,
    ensures
        0 <= d < quad_diagonals(words, faces).len(),
        ({
            let f = face_particles(words, faces[k]);
            quad_diagonals(words, faces)[d] == ordered(f[1], f[3])
        }),
    decreases faces.len(),
{
    let before = quad_diagonals(words, faces.drop_last());
    if k == faces.len() - 1 {
        before.len() as int
    } else {
        assert(faces.drop_last()[k] == faces[k]);
        lemma_quad_row(words, faces.drop_last(), k)
    }
}

} // verus!
