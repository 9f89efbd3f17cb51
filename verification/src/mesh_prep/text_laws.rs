//! What it means to split text.

use vstd::prelude::*;

use crate::mesh_prep::text::{
    digits_value, is_digit, is_white, split, unsigned, whole_number, words,
};

verus! {

/// The character of a decimal digit.
pub open spec fn digit(k: nat) -> char {
    ('0' as u32 + k) as char
}

/// The decimals of a number, as it is usually written.
pub open spec fn decimals(n: nat) -> Seq<char>
    decreases n,
{
    if n < 10 {
        seq![digit(n)]
    } else {
        decimals(n / 10).push(digit(n % 10))
    }
}

/// The decimals of a number read as the number.
pub proof fn law_decimals(n: nat)
    ensures
        digits_value(decimals(n)) == n,
        n <= usize::MAX ==> whole_number(decimals(n)) == Some(n as usize),
{
    lemma_decimals(n);
    let s = decimals(n);
    assert(is_digit(s[0]));
    assert(unsigned(s) == s);
}

/// A plus sign in front changes nothing. Text with another character among the digits is no number,
/// nor is text without digits or with digits of a value out of range.
pub proof fn law_no_numbers(s: Seq<char>, k: int, n: nat)
    ensures
        n <= usize::MAX ==> whole_number(seq!['+'] + decimals(n)) == Some(n as usize),
        usize::MAX < n ==> whole_number(decimals(n)) is None,
        0 <= k < s.len() && !is_digit(s[k]) && !(k == 0 && s[k] == '+') ==> whole_number(s) is None,
        s.len() == 0 ==> whole_number(s) is None,
        s == seq!['+'] ==> whole_number(s) is None,
{
    lemma_decimals(n);
    let d = decimals(n);
    let signed = seq!['+'] + d;
    assert(signed[0] == '+');
    assert(signed.drop_first() =~= d);
    assert(is_digit(d[0]));
    assert(unsigned(d) == d);
    if 0 <= k < s.len() && !is_digit(s[k]) && !(k == 0 && s[k] == '+') {
        let u = unsigned(s);
        if s[0] == '+' {
            assert(u[k - 1] == s[k]);
        } else {
            assert(u[k] == s[k]);
        }
    }
}

proof fn lemma_decimals(n: nat)
    ensures
        decimals(n).len() > 0,
        forall|k: int| 0 <= k < decimals(n).len() ==> is_digit(#[trigger] decimals(n)[k]),
        digits_value(decimals(n)) == n,
    decreases n,
{
    if n < 10 {
        let s = seq![digit(n)];
        assert(s.drop_last() =~= seq![]);
        assert(digits_value(seq![]) == 0);
        assert(s.last() == digit(n));
    } else {
        lemma_decimals(n / 10);
        let s = decimals(n);
        assert(s.drop_last() =~= decimals(n / 10));
        assert(s.last() == digit(n % 10));
        assert forall|k: int| 0 <= k < s.len() implies is_digit(#[trigger] s[k]) by {
            if k < s.len() - 1 {
                assert(s[k] == decimals(n / 10)[k]);
            }
        }
    }
}

/// `s` does not hold the character.
pub open spec fn lacks(s: Seq<char>, c: char) -> bool {
    forall|k: int| 0 <= k < s.len() ==> #[trigger] s[k] != c
}

/// Decimals hold no slash.
pub proof fn lemma_decimals_lack(n: nat, c: char)
    requires
        !is_digit(c),
    ensures
        lacks(decimals(n), c),
{
    lemma_decimals(n);
}

/// Text without the separator is one piece. Two texts with the separator between them split into the
/// pieces of the one and then those of the other.
pub proof fn law_split(a: Seq<char>, b: Seq<char>, separator: char)
    ensures
        split(a.push(separator) + b, separator) == split(a, separator) + split(b, separator),
        lacks(a, separator) ==> split(a, separator) == seq![a],
{
    lemma_split_joined(a, b, separator);
    if lacks(a, separator) {
        lemma_one_piece(a, separator);
    }
}

proof fn lemma_one_piece(a: Seq<char>, separator: char)
    requires
        lacks(a, separator),
    ensures
        split(a, separator) == seq![a],
    decreases a.len(),
{
    if a.len() > 0 {
        let before = a.drop_last();
        assert forall|k: int| 0 <= k < before.len() implies #[trigger] before[k] != separator by {
            assert(a[k] == before[k]);
        }
        lemma_one_piece(before, separator);
        assert(a.last() == a[a.len() - 1]);
        assert(seq![before].drop_last().push(seq![before].last().push(a.last())) =~= seq![
            before.push(a.last()),
        ]);
        assert(before.push(a.last()) =~= a);
    } else {
        assert(a =~= seq![]);
    }
}

proof fn lemma_pieces(s: Seq<char>, separator: char)
    ensures
        split(s, separator).len() > 0,
    decreases s.len(),
{
    if s.len() > 0 {
        lemma_pieces(s.drop_last(), separator);
    }
}

proof fn lemma_split_joined(a: Seq<char>, b: Seq<char>, separator: char)
    ensures
        split(a.push(separator) + b, separator) == split(a, separator) + split(b, separator),
    decreases b.len(),
{
    let all = a.push(separator) + b;
    if b.len() == 0 {
        assert(all =~= a.push(separator));
        assert(all.drop_last() =~= a);
        assert(all.last() == separator);
        assert(split(b, separator) == seq![Seq::<char>::empty()]);
        assert(split(a, separator).push(seq![]) =~= split(a, separator) + seq![seq![]]);
    } else {
        let c = b.last();
        let less = b.drop_last();
        lemma_split_joined(a, less, separator);
        lemma_pieces(less, separator);
        assert(all.drop_last() =~= a.push(separator) + less);
        assert(all.last() == c);
        let first = split(a, separator);
        let second = split(less, separator);
        if c == separator {
            assert((first + second).push(seq![]) =~= first + second.push(seq![]));
        } else {
            assert((first + second).last() == second.last());
            assert((first + second).drop_last() =~= first + second.drop_last());
            assert((first + second.drop_last()).push(second.last().push(c)) =~= first
                + second.drop_last().push(second.last().push(c)));
        }
    }
}

/// Of the ASCII characters the blank, the tab, the line feed, the vertical tab, the form feed and the
/// carriage return separate words, and no others.
pub proof fn law_ascii_white_space(c: char)
    requires
        c as u32 <= 0x7f,
    ensures
        is_white(c) <==> c == ' ' || c == '\t' || c == '\n' || c == '\x0b' || c == '\x0c' || c
            == '\r',
{
}

/// No character of `s` separates words.
pub open spec fn solid(s: Seq<char>) -> bool {
    forall|k: int| 0 <= k < s.len() ==> !is_white(#[trigger] s[k])
}

/// Text without white space is one word, if it is any text. Two texts with white space between them
/// hold the words of the one and then those of the other.
pub proof fn law_words(a: Seq<char>, b: Seq<char>, c: char)
    requires
        is_white(c),
    ensures
        words(a.push(c) + b) == words(a) + words(b),
        words(Seq::<char>::empty()) == Seq::<Seq<char>>::empty(),
        solid(a) && a.len() > 0 ==> words(a) == seq![a],
{
    lemma_words_joined(a, b, c);
    if solid(a) && a.len() > 0 {
        lemma_one_word(a);
    }
}

proof fn lemma_one_word(a: Seq<char>)
    requires
        solid(a),
        a.len() > 0,
    ensures
        words(a) == seq![a],
    decreases a.len(),
{
    let before = a.drop_last();
    assert(!is_white(a[a.len() - 1]));
    if before.len() > 0 {
        assert forall|k: int| 0 <= k < before.len() implies !is_white(#[trigger] before[k]) by {
            assert(a[k] == before[k]);
        }
        lemma_one_word(before);
        assert(!is_white(a[a.len() - 2]));
        assert(seq![before].drop_last().push(seq![before].last().push(a.last())) =~= seq![
            before.push(a.last()),
        ]);
        assert(before.push(a.last()) =~= a);
    } else {
        assert(before =~= seq![]);
        assert(words(before) =~= seq![]);
        assert(seq![a.last()] =~= a);
        assert(Seq::<Seq<char>>::empty().push(a) =~= seq![a]);
    }
}

proof fn lemma_some_words(s: Seq<char>)
    requires
        s.len() > 0,
        !is_white(s.last()),
    ensures
        words(s).len() > 0,
{
}

proof fn lemma_words_joined(a: Seq<char>, b: Seq<char>, c: char)
    requires
        is_white(c),
    ensures
        words(a.push(c) + b) == words(a) + words(b),
    decreases b.len(),
{
    let all = a.push(c) + b;
    if b.len() == 0 {
        assert(all =~= a.push(c));
        assert(all.drop_last() =~= a);
        assert(all.last() == c);
        assert(words(b) =~= seq![]);
        assert(words(a) + words(b) =~= words(a));
    } else {
        let less = b.drop_last();
        let last = b.last();
        lemma_words_joined(a, less, c);
        assert(all.drop_last() =~= a.push(c) + less);
        assert(all.last() == last);
        let first = words(a);
        let second = words(less);
        if is_white(last) {
        } else if b.len() >= 2 && !is_white(b[b.len() - 2]) {
            assert(all[all.len() - 2] == b[b.len() - 2]);
            assert(less.last() == b[b.len() - 2]);
            lemma_some_words(less);
            assert((first + second).last() == second.last());
            assert((first + second).drop_last() =~= first + second.drop_last());
            assert((first + second.drop_last()).push(second.last().push(last)) =~= first
                + second.drop_last().push(second.last().push(last)));
        } else {
            if b.len() >= 2 {
                assert(all[all.len() - 2] == b[b.len() - 2]);
            } else {
                assert(all[all.len() - 2] == c);
            }
            assert((first + second).push(seq![last]) =~= first + second.push(seq![last]));
        }
    }
}

} // verus!
