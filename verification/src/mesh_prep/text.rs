//! Splits text into lines, words and parts, and reads whole numbers.

use vstd::prelude::*;

verus! {

/// The characters that separate words.
pub open spec fn is_white(c: char) -> bool {
    let u = c as u32;
    ||| 0x09 <= u <= 0x0d
    ||| u == 0x20
    ||| u == 0x85
    ||| u == 0xa0
    ||| u == 0x1680
    ||| 0x2000 <= u <= 0x200a
    ||| u == 0x2028
    ||| u == 0x2029
    ||| u == 0x202f
    ||| u == 0x205f
    ||| u == 0x3000
}

/// The pieces between the separators.
pub open spec fn split(s: Seq<char>, separator: char) -> Seq<Seq<char>>
    decreases s.len(),
{
    if s.len() == 0 {
        seq![seq![]]
    } else {
        let before = split(s.drop_last(), separator);
        if s.last() == separator {
            before.push(seq![])
        } else {
            before.drop_last().push(before.last().push(s.last()))
        }
    }
}

/// The longest runs without white space.
pub open spec fn words(s: Seq<char>) -> Seq<Seq<char>>
    decreases s.len(),
{
    if s.len() == 0 {
        seq![]
    } else {
        let before = words(s.drop_last());
        if is_white(s.last()) {
            before
        } else if s.len() >= 2 && !is_white(s[s.len() - 2]) {
            before.drop_last().push(before.last().push(s.last()))
        } else {
            before.push(seq![s.last()])
        }
    }
}

pub open spec fn is_digit(c: char) -> bool {
    '0' <= c <= '9'
}

/// The value of decimal digits.
pub open spec fn digits_value(s: Seq<char>) -> int
    decreases s.len(),
{
    if s.len() == 0 {
        0
    } else {
        10 * digits_value(s.drop_last()) + (s.last() as u32 - '0' as u32)
    }
}

/// `s` without a plus sign in front.
pub open spec fn unsigned(s: Seq<char>) -> Seq<char> {
    if s.len() > 0 && s[0] == '+' {
        s.drop_first()
    } else {
        s
    }
}

/// The whole number that `s` is: decimal digits, with an optional plus sign, of a value in range.
pub open spec fn whole_number(s: Seq<char>) -> Option<usize> {
    let d = unsigned(s);
    if d.len() > 0 && (forall|k: int| 0 <= k < d.len() ==> is_digit(#[trigger] d[k])) && digits_value(
        d,
    ) <= usize::MAX {
        Some(digits_value(d) as usize)
    } else {
        None
    }
}

/// The contents of nested lists.
pub open spec fn contents(v: Seq<Vec<char>>) -> Seq<Seq<char>> {
    v.map_values(|w: Vec<char>| w@)
}

fn white(c: char) -> (r: bool)
    ensures
        r == is_white(c),
{
    let u: u32 = c as u32;
    (0x09 <= u && u <= 0x0d) || u == 0x20 || u == 0x85 || u == 0xa0 || u == 0x1680 || (0x2000 <= u
        && u <= 0x200a) || u == 0x2028 || u == 0x2029 || u == 0x202f || u == 0x205f || u == 0x3000
}

/// The pieces between the separators.
pub fn split_at(s: &[char], separator: char) -> (r: Vec<Vec<char>>)
    ensures
        contents(r@) == split(s@, separator),
        r@.len() >= 1,
{
    let mut r: Vec<Vec<char>> = Vec::new();
    let mut piece: Vec<char> = Vec::new();
    let mut k: usize = 0;
    assert(s@.take(0) =~= seq![]);
    assert(contents(r@).push(piece@) =~= seq![seq![]]);
    while k < s.len()
        invariant
            k <= s@.len(),
            contents(r@).push(piece@) == split(s@.take(k as int), separator),
        decreases s@.len() - k,
    {
        let c: char = s[k];
        let ghost pieces = contents(r@);
        let ghost last = piece@;
        proof {
            assert(s@.take(k + 1).drop_last() =~= s@.take(k as int));
            assert(pieces.push(last).drop_last() =~= pieces);
        }
        if c == separator {
            r.push(piece);
            assert(contents(r@) =~= pieces.push(last));
            piece = Vec::new();
            assert(piece@ =~= seq![]);
        } else {
            piece.push(c);
        }
        k = k + 1;
    }
    let ghost pieces = contents(r@);
    let ghost last = piece@;
    r.push(piece);
    proof {
        assert(contents(r@) =~= pieces.push(last));
        assert(s@.take(k as int) =~= s@);
    }
    r
}

/// The longest runs without white space.
pub fn words_of(s: &[char]) -> (r: Vec<Vec<char>>)
    ensures
        contents(r@) == words(s@),
{
    let mut r: Vec<Vec<char>> = Vec::new();
    let mut word: Vec<char> = Vec::new();
    let mut k: usize = 0;
    assert(s@.take(0) =~= seq![]);
    assert(contents(r@) =~= seq![]);
    while k < s.len()
        invariant
            k <= s@.len(),
            word@.len() == 0 <==> k == 0 || is_white(s@[k - 1]),
            word@.len() == 0 ==> contents(r@) == words(s@.take(k as int)),
            word@.len() > 0 ==> contents(r@).push(word@) == words(s@.take(k as int)),
        decreases s@.len() - k,
    {
        let c: char = s[k];
        let ghost done = contents(r@);
        let ghost last = word@;
        proof {
            assert(s@.take(k + 1).drop_last() =~= s@.take(k as int));
            assert(done.push(last).drop_last() =~= done);
            assert(seq![c] =~= Seq::<char>::empty().push(c));
        }
        if white(c) {
            if word.len() > 0 {
                r.push(word);
                assert(contents(r@) =~= done.push(last));
                word = Vec::new();
            }
        } else {
            word.push(c);
            proof {
                if last.len() == 0 {
                    assert(word@ =~= seq![c]);
                }
            }
        }
        k = k + 1;
    }
    proof {
        assert(s@.take(k as int) =~= s@);
    }
    if word.len() > 0 {
        let ghost done = contents(r@);
        let ghost last = word@;
        r.push(word);
        assert(contents(r@) =~= done.push(last));
    }
    r
}

proof fn lemma_digits_grow(s: Seq<char>, k: int)
    requires
        0 <= k <= s.len(),
        forall|l: int| 0 <= l < s.len() ==> is_digit(#[trigger] s[l]),
    ensures
        0 <= digits_value(s.take(k)) <= digits_value(s),
    decreases s.len(),
{
    if k == s.len() {
        assert(s.take(k) =~= s);
        if k > 0 {
            lemma_digits_grow(s.drop_last(), k - 1);
            assert(is_digit(s[k - 1]));
        }
    } else {
        lemma_digits_grow(s.drop_last(), k);
        assert(s.drop_last().take(k) =~= s.take(k));
        assert(is_digit(s[s.len() - 1]));
    }
}

/// Reads a whole number.
pub fn parse_whole(s: &[char]) -> (r: Option<usize>)
    ensures
        r == whole_number(s@),
{
    let start: usize = if s.len() > 0 && s[0] == '+' {
        1
    } else {
        0
    };
    let ghost d = unsigned(s@);
    proof {
        assert(d =~= s@.skip(start as int));
    }
    if start == s.len() {
        return None;
    }
    let mut value: usize = 0;
    let mut k: usize = start;
    assert(d.take(0) =~= seq![]);
    while k < s.len()
        invariant
            start <= k <= s@.len(),
            start < s@.len(),
            d == unsigned(s@),
            d =~= s@.skip(start as int),
            forall|l: int| 0 <= l < k - start ==> is_digit(#[trigger] d[l]),
            value == digits_value(d.take(k - start)),
        decreases s@.len() - k,
    {
        let c: char = s[k];
        assert(d[k - start] == c);
        if !('0' <= c && c <= '9') {
            assert(!is_digit(d[k - start]));
            return None;
        }
        let digit: usize = (c as u32 - '0' as u32) as usize;
        proof {
            assert(d.take(k - start + 1).drop_last() =~= d.take(k - start));
            assert(digits_value(d.take(k - start + 1)) == 10 * value + digit);
            if forall|l: int| 0 <= l < d.len() ==> is_digit(#[trigger] d[l]) {
                lemma_digits_grow(d, k - start + 1);
            }
        }
        value = match value.checked_mul(10) {
            Some(v) => match v.checked_add(digit) {
                Some(w) => w,
                None => {
                    return None;
                },
            },
            None => {
                return None;
            },
        };
        k = k + 1;
    }
    assert(d.take(k - start) =~= d);
    Some(value)
}

/// The characters of a text.
pub fn chars_of(text: &str) -> (r: Vec<char>)
    ensures
        r@ == text@,
{
    let mut r: Vec<char> = Vec::new();
    for c in it: text.chars()
        invariant
            r@ == it.seq().take(it.index() as int),
            it.seq() == text@,
    {
        r.push(c);
    }
    r
}

} // verus!
