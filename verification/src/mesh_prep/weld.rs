//! Welds the corners of faces: corners with the same word are one particle.

use std::collections::HashMap;

use vstd::prelude::*;

use crate::mesh_prep::cloth_mesh::copied;
use crate::mesh_prep::obj::nested_contents;
use crate::mesh_prep::text::contents;
use crate::mesh_prep::topology::ordered;

verus! {

/// The different items, in the order in which they come first.
pub open spec fn distinct<T>(s: Seq<T>) -> Seq<T>
    decreases s.len(),
{
    if s.len() == 0 {
        seq![]
    } else {
        let before = distinct(s.drop_last());
        if before.contains(s.last()) {
            before
        } else {
            before.push(s.last())
        }
    }
}

/// The corners of all faces, but for those with fewer than three.
pub open spec fn corners(faces: Seq<Seq<Seq<char>>>) -> Seq<Seq<char>>
    decreases faces.len(),
{
    if faces.len() == 0 {
        seq![]
    } else {
        let before = corners(faces.drop_last());
        if faces.last().len() < 3 {
            before
        } else {
            before + faces.last()
        }
    }
}

/// The particles of the faces, each by its word.
pub open spec fn welded(faces: Seq<Seq<Seq<char>>>) -> Seq<Seq<char>> {
    distinct(corners(faces))
}

/// The particles at the corners of a face.
pub open spec fn face_particles(words: Seq<Seq<char>>, face: Seq<Seq<char>>) -> Seq<u32> {
    face.map_values(|w: Seq<char>| words.index_of(w) as u32)
}

/// The triangles of a face: a fan around its first corner.
pub open spec fn fan(face: Seq<u32>) -> Seq<u32> {
    Seq::new(
        (3 * (face.len() - 2)) as nat,
        |k: int|
            if k % 3 == 0 {
                face[0]
            } else {
                face[k / 3 + k % 3]
            },
    )
}

/// The triangles of all faces, but for those with fewer than three corners.
pub open spec fn fans(words: Seq<Seq<char>>, faces: Seq<Seq<Seq<char>>>) -> Seq<u32>
    decreases faces.len(),
{
    if faces.len() == 0 {
        seq![]
    } else {
        let before = fans(words, faces.drop_last());
        if faces.last().len() < 3 {
            before
        } else {
            before + fan(face_particles(words, faces.last()))
        }
    }
}

/// The corners of each quad that its triangles do not connect, the second and the fourth.
pub open spec fn quad_diagonals(
    words: Seq<Seq<char>>,
    faces: Seq<Seq<Seq<char>>>,
) -> Seq<(u32, u32)>
    decreases faces.len(),
{
    if faces.len() == 0 {
        seq![]
    } else {
        let before = quad_diagonals(words, faces.drop_last());
        if faces.last().len() == 4 {
            let f = face_particles(words, faces.last());
            before.push(ordered(f[1], f[3]))
        } else {
            before
        }
    }
}

spec fn hash_of(w: Seq<char>) -> int
    decreases w.len(),
{
    if w.len() == 0 {
        0
    } else {
        (131 * hash_of(w.drop_last()) + w.last() as u32) % 0xffff_fffb
    }
}

fn word_hash(w: &Vec<char>) -> (r: u64)
    ensures
        r == hash_of(w@),
{
    let mut h: u64 = 0;
    let mut k: usize = 0;
    assert(w@.take(0) =~= seq![]);
    while k < w.len()
        invariant
            k <= w@.len(),
            h < 0xffff_fffb,
            h == hash_of(w@.take(k as int)),
        decreases w@.len() - k,
    {
        assert(w@.take(k + 1).drop_last() =~= w@.take(k as int));
        let c: char = w[k];
        h = (131 * h + c as u32 as u64) % 0xffff_fffb;
        k = k + 1;
    }
    assert(w@.take(k as int) =~= w@);
    h
}

fn same_word(a: &Vec<char>, b: &Vec<char>) -> (r: bool)
    ensures
        r == (a@ == b@),
{
    if a.len() != b.len() {
        return false;
    }
    let mut k: usize = 0;
    while k < a.len()
        invariant
            k <= a@.len(),
            a@.len() == b@.len(),
            forall|l: int| 0 <= l < k ==> a@[l] == b@[l],
        decreases a@.len() - k,
    {
        if a[k] != b[k] {
            return false;
        }
        k = k + 1;
    }
    assert(a@ =~= b@);
    true
}

/// The words so far, each with its number.
pub struct Welder {
    words: Vec<Vec<char>>,
    buckets: HashMap<u64, Vec<u32>>,
}

impl Welder {
    /// The words in the order of their numbers.
    pub closed spec fn view(&self) -> Seq<Seq<char>> {
        contents(self.words@)
    }

    /// No word has two numbers, and each is found in the bucket of its hash.
    pub closed spec fn wf(&self) -> bool {
        &&& self@.no_duplicates()
        &&& self.words@.len() <= u32::MAX
        &&& forall|k: int|
            0 <= k < self.words@.len() ==> bucket_has(
                self.buckets@,
                hash_of((#[trigger] self.words@[k])@) as u64,
                k as u32,
            )
        &&& forall|h: u64, q: int|
            self.buckets@.contains_key(h) && 0 <= q < self.buckets@[h]@.len()
                ==> #[trigger] self.buckets@[h]@[q] < self.words@.len()
    }

    pub fn new() -> (r: Self)
        ensures
            r.wf(),
            r@ == Seq::<Seq<char>>::empty(),
    {
        broadcast use vstd::std_specs::hash::group_hash_axioms;

        let r = Welder { words: Vec::new(), buckets: HashMap::new() };
        assert(r@ =~= seq![]);
        r
    }

    fn into_words(self) -> (r: Vec<Vec<char>>)
        ensures
            contents(r@) == self@,
    {
        self.words
    }

    /// The number of a word, a new one where it has none.
    pub fn number_of(&mut self, w: &Vec<char>) -> (r: u32)
        requires
            old(self).wf(),
            old(self)@.len() < u32::MAX,
        ensures
            final(self).wf(),
            final(self)@ == if old(self)@.contains(w@) {
                old(self)@
            } else {
                old(self)@.push(w@)
            },
            r < final(self)@.len(),
            final(self)@[r as int] == w@,
    {
        broadcast use vstd::std_specs::hash::group_hash_axioms;

        let h: u64 = word_hash(w);
        let ghost words0 = self.words@;
        let ghost buckets0 = self.buckets@;
        let mut bucket: Vec<u32> = match self.buckets.get(&h) {
            Some(b) => copied(b.as_slice()),
            None => Vec::new(),
        };
        let mut q: usize = 0;
        while q < bucket.len()
            invariant
                q <= bucket@.len(),
                self.words@ == words0,
                self.buckets@ == buckets0,
                forall|l: int| 0 <= l < bucket@.len() ==> #[trigger] bucket@[l] < words0.len(),
                forall|l: int|
                    0 <= l < q ==> words0[(#[trigger] bucket@[l]) as int]@ != w@,
                *self == *old(self),
                self.wf(),
            decreases bucket@.len() - q,
        {
            let k: u32 = bucket[q];
            if same_word(&self.words[k as usize], w) {
                proof {
                    assert(self@[k as int] == w@);
                    assert(self@.contains(w@));
                }
                return k;
            }
            q = q + 1;
        }
        proof {
            if self@.contains(w@) {
                let k = choose|k: int| 0 <= k < self@.len() && self@[k] == w@;
                assert(words0[k]@ == w@);
                assert(bucket_has(buckets0, hash_of(words0[k]@) as u64, k as u32));
                let l = choose|l: int|
                    0 <= l < buckets0[h]@.len() && #[trigger] buckets0[h]@[l] == k as u32;
                assert(bucket@[l] == k as u32);
            }
        }
        let number: u32 = self.words.len() as u32;
        let ghost bucket0 = bucket@;
        bucket.push(number);
        self.buckets.insert(h, bucket);
        self.words.push(copied(w.as_slice()));
        proof {
            assert(self@ =~= contents(words0).push(w@));
            assert forall|k: int| 0 <= k < self.words@.len() implies bucket_has(
                self.buckets@,
                hash_of((#[trigger] self.words@[k])@) as u64,
                k as u32,
            ) by {
                let g = hash_of(self.words@[k]@) as u64;
                if k < words0.len() {
                    assert(bucket_has(buckets0, hash_of(words0[k]@) as u64, k as u32));
                    let l = choose|l: int|
                        0 <= l < buckets0[g]@.len() && #[trigger] buckets0[g]@[l] == k as u32;
                    if g == h {
                        assert(bucket0[l] == k as u32);
                        assert(self.buckets@[g]@[l] == k as u32);
                    } else {
                        assert(self.buckets@[g]@[l] == k as u32);
                    }
                } else {
                    assert(self.buckets@[g]@[bucket0.len() as int] == k as u32);
                }
            }
            assert forall|g: u64, q: int|
                self.buckets@.contains_key(g) && 0 <= q
                    < self.buckets@[g]@.len() implies #[trigger] self.buckets@[g]@[q]
                < self.words@.len() by {
                if g == h {
                    if q < bucket0.len() {
                        assert(self.buckets@[g]@[q] == bucket0[q]);
                        assert(bucket0[q] < words0.len());
                    }
                } else {
                    assert(buckets0.contains_key(g) && self.buckets@[g] == buckets0[g]);
                    assert(buckets0[g]@[q] < words0.len());
                }
            }
        }
        number
    }
}

spec fn bucket_has(buckets: Map<u64, Vec<u32>>, h: u64, k: u32) -> bool {
    &&& buckets.contains_key(h)
    &&& exists|q: int| 0 <= q < buckets[h]@.len() && #[trigger] buckets[h]@[q] == k
}

/// No item is listed twice, and the listed ones are those that occur.
pub proof fn law_distinct<T>(s: Seq<T>)
    ensures
        distinct(s).no_duplicates(),
        distinct(s).len() <= s.len(),
        forall|x: T| #[trigger] distinct(s).contains(x) <==> s.contains(x),
    decreases s.len(),
{
    if s.len() > 0 {
        let init = s.drop_last();
        law_distinct(init);
        let before = distinct(init);
        let all = distinct(s);
        assert forall|x: T| #[trigger] all.contains(x) <==> s.contains(x) by {
            assert(before.contains(x) <==> init.contains(x));
            assert(before.contains(s.last()) <==> init.contains(s.last()));
            if all.contains(x) {
                let q = choose|q: int| 0 <= q < all.len() && all[q] == x;
                if q < before.len() {
                    assert(before[q] == x);
                    let l = choose|l: int| 0 <= l < init.len() && init[l] == x;
                    assert(s[l] == x);
                } else {
                    assert(s[s.len() - 1] == x);
                }
            }
            if s.contains(x) {
                let l = choose|l: int| 0 <= l < s.len() && s[l] == x;
                if l < init.len() {
                    assert(init[l] == x);
                    let q = choose|q: int| 0 <= q < before.len() && before[q] == x;
                    assert(all[q] == x);
                } else if before.contains(x) {
                    let q = choose|q: int| 0 <= q < before.len() && before[q] == x;
                    assert(all[q] == x);
                } else {
                    assert(all[before.len() as int] == x);
                }
            }
        }
        assert forall|a: int, b: int|
            0 <= a < all.len() && 0 <= b < all.len() && a != b implies all[a] != all[b] by {
            if a < before.len() && b < before.len() {
                assert(before[a] == all[a] && before[b] == all[b]);
            } else if a < before.len() {
                assert(before.contains(before[a]));
            } else {
                assert(before.contains(before[b]));
            }
        }
    }
}

/// The words of `more` begin with those of `words`.
spec fn extends(words: Seq<Seq<char>>, more: Seq<Seq<char>>) -> bool {
    &&& words.len() <= more.len()
    &&& forall|k: int| 0 <= k < words.len() ==> #[trigger] words[k] == more[k]
}

proof fn lemma_same_number(words: Seq<Seq<char>>, more: Seq<Seq<char>>, w: Seq<char>)
    requires
        extends(words, more),
        more.no_duplicates(),
        words.contains(w),
    ensures
        words.index_of(w) == more.index_of(w),
        0 <= words.index_of(w) < words.len(),
{
    let a = words.index_of(w);
    assert(0 <= a < words.len() && words[a] == w);
    assert(more[a] == w);
    let b = more.index_of(w);
    assert(0 <= b < more.len() && more[b] == w);
}

/// All corners have numbers.
spec fn all_numbered(words: Seq<Seq<char>>, faces: Seq<Seq<Seq<char>>>) -> bool {
    forall|f: int, c: int|
        0 <= f < faces.len() && faces[f].len() >= 3 && 0 <= c < faces[f].len() ==> words.contains(
            #[trigger] faces[f][c],
        )
}

proof fn lemma_fans_stable(
    words: Seq<Seq<char>>,
    more: Seq<Seq<char>>,
    faces: Seq<Seq<Seq<char>>>,
)
    requires
        extends(words, more),
        more.no_duplicates(),
        all_numbered(words, faces),
    ensures
        fans(words, faces) == fans(more, faces),
        quad_diagonals(words, faces) == quad_diagonals(more, faces),
        all_numbered(more, faces),
    decreases faces.len(),
{
    assert forall|f: int, c: int|
        0 <= f < faces.len() && faces[f].len() >= 3 && 0 <= c
            < faces[f].len() implies more.contains(#[trigger] faces[f][c]) by {
        lemma_same_number(words, more, faces[f][c]);
    }
    if faces.len() > 0 {
        let init = faces.drop_last();
        assert forall|f: int, c: int|
            0 <= f < init.len() && init[f].len() >= 3 && 0 <= c
                < init[f].len() implies words.contains(#[trigger] init[f][c]) by {
            assert(words.contains(faces[f][c]));
        }
        lemma_fans_stable(words, more, init);
        if faces.last().len() >= 3 {
            let face = faces.last();
            assert forall|c: int| 0 <= c < face.len() implies face_particles(words, face)[c]
                == face_particles(more, face)[c] by {
                assert(words.contains(faces[faces.len() - 1][c]));
                lemma_same_number(words, more, face[c]);
            }
            assert(face_particles(words, face) =~= face_particles(more, face));
        }
    }
}

/// More words are no fewer different ones.
proof fn lemma_distinct_grows(a: Seq<Seq<char>>, b: Seq<Seq<char>>)
    ensures
        distinct(a).len() <= distinct(a + b).len(),
    decreases b.len(),
{
    if b.len() == 0 {
        assert(a + b =~= a);
    } else {
        lemma_distinct_grows(a, b.drop_last());
        assert((a + b).drop_last() =~= a + b.drop_last());
    }
}

/// The corners of some faces begin those of all.
proof fn lemma_corners_grow(faces: Seq<Seq<Seq<char>>>, k: int)
    requires
        0 <= k <= faces.len(),
    ensures
        welded(faces.take(k)).len() <= welded(faces).len(),
    decreases faces.len(),
{
    if k == faces.len() {
        assert(faces.take(k) =~= faces);
    } else {
        lemma_corners_grow(faces.drop_last(), k);
        assert(faces.drop_last().take(k) =~= faces.take(k));
        if faces.last().len() >= 3 {
            lemma_distinct_grows(corners(faces.drop_last()), faces.last());
        }
    }
}

/// Triangles and diagonals are between the welded particles.
pub proof fn lemma_fans_below(words: Seq<Seq<char>>, faces: Seq<Seq<Seq<char>>>)
    requires
        words == welded(faces),
        words.len() <= u32::MAX,
    ensures
        forall|k: int| 0 <= k < fans(words, faces).len() ==> #[trigger] fans(words, faces)[k] < words.len(),
        forall|k: int|
            0 <= k < quad_diagonals(words, faces).len() ==> (#[trigger] quad_diagonals(
                words,
                faces,
            )[k]).0 < words.len() && quad_diagonals(words, faces)[k].1 < words.len(),
{
    law_distinct(corners(faces));
    assert forall|f: int, c: int|
        0 <= f < faces.len() && faces[f].len() >= 3 && 0 <= c
            < faces[f].len() implies words.contains(#[trigger] faces[f][c]) by {
        lemma_is_corner(faces, f, c);
    }
    lemma_numbers_below(words, faces);
}

pub(crate) proof fn lemma_is_corner(faces: Seq<Seq<Seq<char>>>, f: int, c: int)
    requires
        0 <= f < faces.len(),
        faces[f].len() >= 3,
        0 <= c < faces[f].len(),
    ensures
        corners(faces).contains(faces[f][c]),
    decreases faces.len(),
{
    let before = corners(faces.drop_last());
    if f == faces.len() - 1 {
        assert(corners(faces)[before.len() + c] == faces[f][c]);
    } else {
        lemma_is_corner(faces.drop_last(), f, c);
        let q = choose|q: int| 0 <= q < before.len() && before[q] == faces[f][c];
        assert(corners(faces)[q] == faces[f][c]);
    }
}

/// The different items of a beginning come first among all of them, in the same order.
pub proof fn law_distinct_grows<T>(s: Seq<T>, l: int)
    requires
        0 <= l <= s.len(),
    ensures
        distinct(s.take(l)).len() <= distinct(s).len(),
        distinct(s).take(distinct(s.take(l)).len() as int) == distinct(s.take(l)),
    decreases s.len() - l,
{
    if l < s.len() {
        law_distinct_grows(s, l + 1);
        let next = s.take(l + 1);
        assert(next.drop_last() =~= s.take(l));
        let (a, b) = (distinct(s.take(l)), distinct(next));
        assert(b.take(a.len() as int) =~= a);
        assert(distinct(s).take(a.len() as int) =~= distinct(s).take(b.len() as int).take(
            a.len() as int,
        ));
    } else {
        assert(s.take(l) =~= s);
        assert(distinct(s).take(distinct(s).len() as int) =~= distinct(s));
    }
}

/// The particles of the faces are the words of their corners, those of faces with fewer than three
/// corners left out.
pub proof fn law_particles_are_corners(faces: Seq<Seq<Seq<char>>>, w: Seq<char>)
    ensures
        welded(faces).contains(w) <==> exists|f: int, c: int|
            0 <= f < faces.len() && faces[f].len() >= 3 && 0 <= c < faces[f].len()
                && #[trigger] faces[f][c] == w,
{
    law_distinct(corners(faces));
    if welded(faces).contains(w) {
        lemma_corner_is_of_face(faces, w);
    }
    if exists|f: int, c: int|
        0 <= f < faces.len() && faces[f].len() >= 3 && 0 <= c < faces[f].len()
            && #[trigger] faces[f][c] == w {
        let (f, c) = choose|f: int, c: int|
            0 <= f < faces.len() && faces[f].len() >= 3 && 0 <= c < faces[f].len()
                && #[trigger] faces[f][c] == w;
        lemma_is_corner(faces, f, c);
    }
}

proof fn lemma_corner_is_of_face(faces: Seq<Seq<Seq<char>>>, w: Seq<char>)
    requires
        corners(faces).contains(w),
    ensures
        exists|f: int, c: int|
            0 <= f < faces.len() && faces[f].len() >= 3 && 0 <= c < faces[f].len()
                && #[trigger] faces[f][c] == w,
    decreases faces.len(),
{
    let all = corners(faces);
    let q = choose|q: int| 0 <= q < all.len() && all[q] == w;
    let init = faces.drop_last();
    let before = corners(init);
    if q < before.len() {
        assert(before[q] == w);
        lemma_corner_is_of_face(init, w);
        let (f, c) = choose|f: int, c: int|
            0 <= f < init.len() && init[f].len() >= 3 && 0 <= c < init[f].len()
                && #[trigger] init[f][c] == w;
        assert(faces[f][c] == w);
    } else {
        assert(faces[faces.len() - 1][q - before.len()] == w);
    }
}

proof fn lemma_numbers_below(words: Seq<Seq<char>>, faces: Seq<Seq<Seq<char>>>)
    requires
        words.len() <= u32::MAX,
        all_numbered(words, faces),
    ensures
        forall|k: int| 0 <= k < fans(words, faces).len() ==> #[trigger] fans(words, faces)[k] < words.len(),
        forall|k: int|
            0 <= k < quad_diagonals(words, faces).len() ==> (#[trigger] quad_diagonals(
                words,
                faces,
            )[k]).0 < words.len() && quad_diagonals(words, faces)[k].1 < words.len(),
    decreases faces.len(),
{
    if faces.len() > 0 {
        let init = faces.drop_last();
        assert forall|f: int, c: int|
            0 <= f < init.len() && init[f].len() >= 3 && 0 <= c
                < init[f].len() implies words.contains(#[trigger] init[f][c]) by {
            assert(words.contains(faces[f][c]));
        }
        lemma_numbers_below(words, init);
        let face = faces.last();
        if face.len() != 4 {
            assert(quad_diagonals(words, faces) == quad_diagonals(words, init));
        }
        if face.len() < 3 {
            assert(fans(words, faces) == fans(words, init));
        }
        if face.len() >= 3 {
            let p = face_particles(words, face);
            assert forall|c: int| 0 <= c < p.len() implies #[trigger] p[c] < words.len() by {
                assert(words.contains(faces[faces.len() - 1][c]));
                assert(0 <= words.index_of(face[c]) < words.len());
            }
            let before = fans(words, init);
            assert forall|k: int| 0 <= k < fans(words, faces).len() implies #[trigger] fans(
                words,
                faces,
            )[k] < words.len() by {
                if k >= before.len() {
                    let l = k - before.len();
                    assert(fans(words, faces)[k] == fan(p)[l]);
                    assert(p[0] < words.len() && p[l / 3 + l % 3] < words.len());
                } else {
                    assert(fans(words, faces)[k] == before[k]);
                }
            }
            if face.len() == 4 {
                assert(p[1] < words.len() && p[3] < words.len());
                let diagonals = quad_diagonals(words, init);
                assert(quad_diagonals(words, faces) == diagonals.push(ordered(p[1], p[3])));
                assert forall|k: int| 0 <= k < quad_diagonals(words, faces).len() implies (
                #[trigger] quad_diagonals(words, faces)[k]).0 < words.len() && quad_diagonals(
                    words,
                    faces,
                )[k].1 < words.len() by {
                    if k < diagonals.len() {
                        assert(quad_diagonals(words, faces)[k] == diagonals[k]);
                    }
                }
            }
        }
    }
}

/// The particles, triangles and quad diagonals of faces.
pub struct WeldedFaces {
    pub words: Vec<Vec<char>>,
    pub indices: Vec<u32>,
    pub diagonals: Vec<(u32, u32)>,
}

/// Numbers the corners of one face.
fn number_face(welder: &mut Welder, face: &Vec<Vec<char>>, Ghost(before): Ghost<Seq<Seq<char>>>) -> (r:
    Vec<u32>)
    requires
        old(welder).wf(),
        old(welder)@ == distinct(before),
        distinct(before + contents(face@)).len() < u32::MAX,
    ensures
        final(welder).wf(),
        final(welder)@ == distinct(before + contents(face@)),
        extends(old(welder)@, final(welder)@),
        r@ == face_particles(final(welder)@, contents(face@)),
        forall|c: int| 0 <= c < face@.len() ==> final(welder)@.contains(#[trigger] contents(face@)[c]),
{
    let ghost words0 = welder@;
    let ghost all = contents(face@);
    let mut r: Vec<u32> = Vec::new();
    let mut c: usize = 0;
    assert(before + all.take(0) =~= before);
    while c < face.len()
        invariant
            c <= face@.len(),
            all == contents(face@),
            distinct(before + all).len() < u32::MAX,
            welder.wf(),
            welder@ == distinct(before + all.take(c as int)),
            extends(words0, welder@),
            r@.len() == c,
            forall|l: int|
                0 <= l < c ==> (#[trigger] r@[l]) < welder@.len() && welder@[r@[l] as int] == all[l],
        decreases face@.len() - c,
    {
        proof {
            law_distinct(before + all.take(c as int));
            assert((before + all.take(c + 1)).drop_last() =~= before + all.take(c as int));
            assert((before + all.take(c + 1)).last() == all[c as int]);
            assert(all[c as int] == face@[c as int]@);
            assert(before + all =~= (before + all.take(c as int)) + all.skip(c as int));
            lemma_distinct_grows(before + all.take(c as int), all.skip(c as int));
            assert(before + all =~= (before + all.take(c + 1)) + all.skip(c + 1));
            lemma_distinct_grows(before + all.take(c + 1), all.skip(c + 1));
        }
        let k: u32 = welder.number_of(&face[c]);
        r.push(k);
        c = c + 1;
    }
    proof {
        assert(all.take(c as int) =~= all);
        law_distinct(before + all);
        assert forall|l: int| 0 <= l < r@.len() implies r@[l] == face_particles(welder@, all)[l] by {
            let k = r@[l] as int;
            assert(welder@[k] == all[l]);
            let b = welder@.index_of(all[l]);
            assert(welder@.contains(all[l]));
            assert(0 <= b < welder@.len() && welder@[b] == all[l]);
        }
        assert(r@ =~= face_particles(welder@, all));
        assert forall|l: int| 0 <= l < face@.len() implies welder@.contains(
            #[trigger] contents(face@)[l],
        ) by {
            assert(welder@[r@[l] as int] == all[l]);
        }
    }
    r
}

fn push_fan(indices: &mut Vec<u32>, face: &Vec<u32>)
    requires
        face@.len() >= 3,
    ensures
        final(indices)@ == old(indices)@ + fan(face@),
{
    let ghost before = indices@;
    let mut i: usize = 1;
    assert(before + fan(face@).take(0) =~= before);
    while i < face.len() - 1
        invariant
            1 <= i <= face@.len() - 1,
            face@.len() >= 3,
            indices@ == before + fan(face@).take(3 * (i - 1)),
        decreases face@.len() - i,
    {
        indices.push(face[0]);
        indices.push(face[i]);
        indices.push(face[i + 1]);
        proof {
            let f = fan(face@);
            let k = 3 * (i - 1);
            assert(k % 3 == 0 && (k + 1) % 3 == 1 && (k + 2) % 3 == 2);
            assert((k + 1) / 3 == i - 1 && (k + 2) / 3 == i - 1);
            assert(f[k] == face@[0] && f[k + 1] == face@[i as int] && f[k + 2] == face@[i + 1]);
            assert(indices@ =~= before + f.take(3 * i as int));
        }
        i = i + 1;
    }
    assert(fan(face@).take(3 * (i - 1)) =~= fan(face@));
}

/// Welds the corners of the faces, and takes the faces with at least three corners apart.
pub fn weld_faces(faces: &Vec<Vec<Vec<char>>>) -> (r: WeldedFaces)
    requires
        welded(nested_contents(faces@)).len() < u32::MAX,
    ensures
        contents(r.words@) == welded(nested_contents(faces@)),
        r.indices@ == fans(contents(r.words@), nested_contents(faces@)),
        r.diagonals@ == quad_diagonals(contents(r.words@), nested_contents(faces@)),
{
    let ghost all = nested_contents(faces@);
    let mut welder = Welder::new();
    let mut indices: Vec<u32> = Vec::new();
    let mut diagonals: Vec<(u32, u32)> = Vec::new();
    let mut k: usize = 0;
    proof {
        assert(all.take(0) =~= seq![]);
        assert(indices@ =~= seq![]);
        assert(diagonals@ =~= seq![]);
    }
    while k < faces.len()
        invariant
            k <= faces@.len(),
            all == nested_contents(faces@),
            welded(all).len() < u32::MAX,
            welder.wf(),
            welder@ == welded(all.take(k as int)),
            indices@ == fans(welder@, all.take(k as int)),
            diagonals@ == quad_diagonals(welder@, all.take(k as int)),
            all_numbered(welder@, all.take(k as int)),
        decreases faces@.len() - k,
    {
        let ghost prefix = all.take(k as int);
        let ghost longer = all.take(k + 1);
        let ghost words0 = welder@;
        proof {
            assert(longer.drop_last() =~= prefix);
            assert(longer.last() == contents(faces@[k as int]@));
            lemma_corners_grow(all, k + 1);
        }
        if faces[k].len() >= 3 {
            let face = number_face(&mut welder, &faces[k], Ghost(corners(prefix)));
            proof {
                law_distinct(corners(longer));
                lemma_fans_stable(words0, welder@, prefix);
                assert forall|f: int, c: int|
                    0 <= f < longer.len() && longer[f].len() >= 3 && 0 <= c
                        < longer[f].len() implies welder@.contains(#[trigger] longer[f][c]) by {
                    if f < k {
                        assert(longer[f] == prefix[f]);
                        assert(welder@.contains(prefix[f][c]));
                    } else {
                        assert(longer[f][c] == contents(faces@[k as int]@)[c]);
                    }
                }
            }
            push_fan(&mut indices, &face);
            if face.len() == 4 {
                let (a, b) = if face[1] <= face[3] {
                    (face[1], face[3])
                } else {
                    (face[3], face[1])
                };
                diagonals.push((a, b));
            }
        } else {
            proof {
                assert forall|f: int, c: int|
                    0 <= f < longer.len() && longer[f].len() >= 3 && 0 <= c
                        < longer[f].len() implies welder@.contains(#[trigger] longer[f][c]) by {
                    assert(longer[f] == prefix[f]);
                    assert(welder@.contains(prefix[f][c]));
                }
            }
        }
        k = k + 1;
    }
    assert(all.take(k as int) =~= all);
    let words = welder.into_words();
    WeldedFaces { words, indices, diagonals }
}

} // verus!
