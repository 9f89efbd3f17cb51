//! Reads the statements of a Wavefront OBJ text that describe a surface.

use vstd::prelude::*;

use crate::mesh_prep::text::{chars_of, contents, is_white, split, split_at, words, words_of};

verus! {

/// What a statement declares.
#[derive(Clone, Copy, PartialEq, Eq, Structural)]
pub enum Head {
    Position,
    Texture,
    Normal,
    Face,
    Other,
}

/// What the statement of these words declares, by the first word.
pub open spec fn head_of(line: Seq<Seq<char>>) -> Head {
    if line.len() == 0 {
        Head::Other
    } else if line[0] == seq!['v'] {
        Head::Position
    } else if line[0] == seq!['v', 't'] {
        Head::Texture
    } else if line[0] == seq!['v', 'n'] {
        Head::Normal
    } else if line[0] == seq!['f'] {
        Head::Face
    } else {
        Head::Other
    }
}

/// The statements of a text: the words of each line.
pub open spec fn statements(text: Seq<char>) -> Seq<Seq<Seq<char>>> {
    split(text, '\n').map_values(|line: Seq<char>| words(line))
}

/// The number that word `k` of a statement is, `zero` where there is none.
pub open spec fn number_at<S>(
    number: spec_fn(Seq<char>) -> Option<S>,
    zero: S,
    line: Seq<Seq<char>>,
    k: int,
) -> S {
    if k < line.len() {
        match number(line[k]) {
            Some(v) => v,
            None => zero,
        }
    } else {
        zero
    }
}

/// The points that the statements with the given head declare.
pub open spec fn points<S>(
    number: spec_fn(Seq<char>) -> Option<S>,
    zero: S,
    head: Head,
    lines: Seq<Seq<Seq<char>>>,
) -> Seq<[S; 3]>
    decreases lines.len(),
{
    if lines.len() == 0 {
        seq![]
    } else {
        let before = points(number, zero, head, lines.drop_last());
        let line = lines.last();
        if head_of(line) == head {
            before.push(
                [
                    number_at(number, zero, line, 1),
                    number_at(number, zero, line, 2),
                    number_at(number, zero, line, 3),
                ],
            )
        } else {
            before
        }
    }
}

/// The texture coordinates that the statements declare.
pub open spec fn texture_points<S>(
    number: spec_fn(Seq<char>) -> Option<S>,
    zero: S,
    lines: Seq<Seq<Seq<char>>>,
) -> Seq<[S; 2]>
    decreases lines.len(),
{
    if lines.len() == 0 {
        seq![]
    } else {
        let before = texture_points(number, zero, lines.drop_last());
        let line = lines.last();
        if head_of(line) == Head::Texture {
            before.push([number_at(number, zero, line, 1), number_at(number, zero, line, 2)])
        } else {
            before
        }
    }
}

/// The faces that the statements declare: the words for their corners.
pub open spec fn faces(lines: Seq<Seq<Seq<char>>>) -> Seq<Seq<Seq<char>>>
    decreases lines.len(),
{
    if lines.len() == 0 {
        seq![]
    } else {
        let before = faces(lines.drop_last());
        if head_of(lines.last()) == Head::Face {
            before.push(lines.last().drop_first())
        } else {
            before
        }
    }
}

/// `f` reads numbers as `number` says.
pub open spec fn reads<S, F: Fn(&[char]) -> Option<S>>(
    f: F,
    number: spec_fn(Seq<char>) -> Option<S>,
) -> bool {
    forall|w: &[char], r: Option<S>| #[trigger] f.ensures((w,), r) ==> r == number(w@)
}

/// The contents of doubly nested lists.
pub open spec fn nested_contents(v: Seq<Vec<Vec<char>>>) -> Seq<Seq<Seq<char>>> {
    v.map_values(|l: Vec<Vec<char>>| contents(l@))
}

/// What the statements declare.
pub struct ObjTables<S> {
    pub positions: Vec<[S; 3]>,
    pub uvs: Vec<[S; 2]>,
    pub normals: Vec<[S; 3]>,
    pub faces: Vec<Vec<Vec<char>>>,
}

impl<S> ObjTables<S> {
    /// The tables hold what the lines declare.
    pub open spec fn holds(
        &self,
        number: spec_fn(Seq<char>) -> Option<S>,
        zero: S,
        lines: Seq<Seq<Seq<char>>>,
    ) -> bool {
        &&& self.positions@ == points(number, zero, Head::Position, lines)
        &&& self.uvs@ == texture_points(number, zero, lines)
        &&& self.normals@ == points(number, zero, Head::Normal, lines)
    }
}

fn head_word(w: &Vec<char>) -> (r: Head)
    ensures
        r == head_of(seq![w@]),
{
    if w.len() == 1 {
        if w[0] == 'v' {
            assert(w@ =~= seq!['v']);
            Head::Position
        } else if w[0] == 'f' {
            assert(w@ =~= seq!['f']);
            assert(w@[0] != seq!['v'][0]);
            assert(seq!['v', 't'].len() == 2 && seq!['v', 'n'].len() == 2);
            Head::Face
        } else {
            assert(w@[0] != seq!['v'][0] && w@[0] != seq!['f'][0]);
            assert(seq!['v', 't'].len() == 2 && seq!['v', 'n'].len() == 2);
            Head::Other
        }
    } else if w.len() == 2 {
        assert(seq!['v'].len() == 1 && seq!['f'].len() == 1);
        if w[0] == 'v' && w[1] == 't' {
            assert(w@ =~= seq!['v', 't']);
            Head::Texture
        } else if w[0] == 'v' && w[1] == 'n' {
            assert(w@ =~= seq!['v', 'n']);
            assert(w@[1] != seq!['v', 't'][1]);
            Head::Normal
        } else {
            assert(w@[0] != seq!['v', 't'][0] || w@[1] != seq!['v', 't'][1]);
            assert(w@[0] != seq!['v', 'n'][0] || w@[1] != seq!['v', 'n'][1]);
            Head::Other
        }
    } else {
        assert(seq!['v'].len() == 1 && seq!['f'].len() == 1);
        assert(seq!['v', 't'].len() == 2 && seq!['v', 'n'].len() == 2);
        Head::Other
    }
}

fn head(line: &Vec<Vec<char>>) -> (r: Head)
    ensures
        r == head_of(contents(line@)),
{
    if line.len() == 0 {
        Head::Other
    } else {
        assert(seq![line@[0]@][0] == contents(line@)[0]);
        head_word(&line[0])
    }
}

fn read_number<S: Copy, F: Fn(&[char]) -> Option<S>>(
    line: &Vec<Vec<char>>,
    k: usize,
    zero: S,
    f: &F,
) -> (r: S)
    requires
        forall|w: &[char]| #[trigger] f.requires((w,)),
    ensures
        forall|number: spec_fn(Seq<char>) -> Option<S>| #[trigger]
            reads(*f, number) ==> r == number_at(number, zero, contents(line@), k as int),
{
    if k < line.len() {
        match f(line[k].as_slice()) {
            Some(v) => v,
            None => zero,
        }
    } else {
        zero
    }
}

fn without_head(line: Vec<Vec<char>>) -> (r: Vec<Vec<char>>)
    requires
        line@.len() > 0,
    ensures
        contents(r@) == contents(line@).drop_first(),
{
    let ghost before = contents(line@);
    let mut rest = line;
    let gone = rest.remove(0);
    assert(contents(rest@) =~= before.drop_first());
    rest
}

/// Reads the statements of a text.
pub fn read_statements<S: Copy, F: Fn(&[char]) -> Option<S>>(text: &str, zero: S, f: &F) -> (r:
    ObjTables<S>)
    requires
        forall|w: &[char]| #[trigger] f.requires((w,)),
    ensures
        nested_contents(r.faces@) == faces(statements(text@)),
        forall|number: spec_fn(Seq<char>) -> Option<S>| #[trigger]
            reads(*f, number) ==> r.holds(number, zero, statements(text@)),
{
    let chars = chars_of(text);
    let lines = split_at(chars.as_slice(), '\n');
    let ghost all = statements(text@);
    let mut r = ObjTables {
        positions: Vec::new(),
        uvs: Vec::new(),
        normals: Vec::new(),
        faces: Vec::new(),
    };
    proof {
        assert(all.take(0) =~= seq![]);
        assert(nested_contents(r.faces@) =~= seq![]);
        assert(r.positions@ =~= seq![]);
        assert(r.normals@ =~= seq![]);
        assert(r.uvs@ =~= seq![]);
    }
    let mut k: usize = 0;
    while k < lines.len()
        invariant
            k <= lines@.len(),
            contents(lines@) == split(text@, '\n'),
            all == statements(text@),
            forall|w: &[char]| #[trigger] f.requires((w,)),
            nested_contents(r.faces@) == faces(all.take(k as int)),
            forall|number: spec_fn(Seq<char>) -> Option<S>| #[trigger]
                reads(*f, number) ==> r.holds(number, zero, all.take(k as int)),
        decreases lines@.len() - k,
    {
        let line = words_of(lines[k].as_slice());
        proof {
            assert(contents(lines@)[k as int] == lines@[k as int]@);
            assert(all[k as int] == contents(line@));
            assert(all.take(k + 1).drop_last() =~= all.take(k as int));
            assert(all.take(k + 1).last() == contents(line@));
        }
        let ghost faces_before = nested_contents(r.faces@);
        let kind = head(&line);
        match kind {
            Head::Position => {
                let x = read_number(&line, 1, zero, f);
                let y = read_number(&line, 2, zero, f);
                let z = read_number(&line, 3, zero, f);
                r.positions.push([x, y, z]);
            },
            Head::Texture => {
                let u = read_number(&line, 1, zero, f);
                let v = read_number(&line, 2, zero, f);
                r.uvs.push([u, v]);
            },
            Head::Normal => {
                let x = read_number(&line, 1, zero, f);
                let y = read_number(&line, 2, zero, f);
                let z = read_number(&line, 3, zero, f);
                r.normals.push([x, y, z]);
            },
            Head::Face => {
                let corners = without_head(line);
                let ghost words = contents(corners@);
                r.faces.push(corners);
                assert(nested_contents(r.faces@) =~= faces_before.push(words));
            },
            Head::Other => {},
        }
        k = k + 1;
    }
    proof {
        assert(contents(lines@).len() == lines@.len());
        assert(all.take(k as int) =~= all);
    }
    r
}

/// Lines without words, and those whose first word starts with a number sign, declare nothing.
pub proof fn law_comments_declare_nothing(line: Seq<Seq<char>>)
    requires
        line.len() == 0 || line[0].len() > 0 && line[0][0] == '#',
    ensures
        head_of(line) == Head::Other,
{
    if line.len() > 0 {
        assert(seq!['v'][0] != '#' && seq!['f'][0] != '#');
        assert(seq!['v', 't'][0] != '#' && seq!['v', 'n'][0] != '#');
    }
}

/// White space at the end of a line, such as a carriage return, changes nothing.
pub proof fn law_trailing_white_space(line: Seq<char>, c: char)
    requires
        is_white(c),
    ensures
        words(line.push(c)) == words(line),
{
    assert(line.push(c).drop_last() =~= line);
}

} // verus!
