//! Character-sequence models and verified scanners for the line-and-column
//! text this crate reads: splitting at a separator, splitting into
//! whitespace-delimited words, and decimal digit runs.

use vstd::prelude::*;

verus! {

/// The separators of the whitespace-delimited column format: space, tab, and
/// carriage return (so line ends of either convention read the same).
pub open spec fn is_space(c: char) -> bool {
    c == ' ' || c == '\t' || c == '\r'
}

pub open spec fn is_dec_digit(c: char) -> bool {
    '0' <= c && c <= '9'
}

/// Value of a decimal digit.
pub open spec fn dec_digit_value(c: char) -> int {
    c as int - 48
}

pub open spec fn is_hex_digit(c: char) -> bool {
    ('0' <= c && c <= '9') || ('a' <= c && c <= 'f') || ('A' <= c && c <= 'F')
}

/// Value of a hexadecimal digit, either case.
pub open spec fn hex_digit_value(c: char) -> int {
    if '0' <= c && c <= '9' {
        c as int - 48
    } else if 'a' <= c && c <= 'f' {
        c as int - 87
    } else {
        c as int - 55
    }
}

pub fn is_space_char(c: char) -> (r: bool)
    ensures
        r == is_space(c),
{
    c == ' ' || c == '\t' || c == '\r'
}

pub fn is_dec_digit_char(c: char) -> (r: bool)
    ensures
        r == is_dec_digit(c),
{
    '0' <= c && c <= '9'
}

/// Value of a run of decimal digits, most significant first.
pub open spec fn dec_value(s: Seq<char>) -> int
    decreases s.len(),
{
    if s.len() == 0 {
        0
    } else {
        dec_value(s.drop_last()) * 10 + dec_digit_value(s.last())
    }
}

/// A run of at most three decimal digits stays under 1000 (and is never
/// negative).
pub proof fn lemma_dec_value_bound(s: Seq<char>)
    requires
        forall|j: int| 0 <= j < s.len() ==> is_dec_digit(s[j]),
        s.len() <= 3,
    ensures
        0 <= dec_value(s),
        s.len() <= 1 ==> dec_value(s) <= 9,
        s.len() <= 2 ==> dec_value(s) <= 99,
        dec_value(s) <= 999,
    decreases s.len(),
{
    if s.len() > 0 {
        lemma_dec_value_bound(s.drop_last());
    }
}

/// The pieces of `s` between occurrences of `sep`: one more piece than there
/// are separators, pieces may be empty, separators appear in no piece.
pub open spec fn split_on(s: Seq<char>, sep: char) -> Seq<Seq<char>>
    decreases s.len(),
{
    if s.len() == 0 {
        seq![s]
    } else if s[0] == sep {
        seq![Seq::<char>::empty()] + split_on(s.drop_first(), sep)
    } else {
        let r = split_on(s.drop_first(), sep);
        seq![seq![s[0]] + r[0]] + r.skip(1)
    }
}

/// Splitting yields at least one piece.
pub proof fn lemma_split_on_nonempty(s: Seq<char>, sep: char)
    ensures
        split_on(s, sep).len() >= 1,
    decreases s.len(),
{
    if s.len() == 0 {
    } else if s[0] == sep {
    } else {
        lemma_split_on_nonempty(s.drop_first(), sep);
    }
}

/// Unrolls one piece: when no separator stands before position `m`, and `m`
/// is a separator or the end, the split is that prefix followed by the split
/// of what comes after the separator.
pub proof fn lemma_split_on_chunk(s: Seq<char>, sep: char, m: int)
    requires
        0 <= m <= s.len(),
        forall|j: int| 0 <= j < m ==> s[j] != sep,
        m < s.len() ==> s[m] == sep,
    ensures
        m == s.len() ==> split_on(s, sep) == seq![s],
        m < s.len() ==> split_on(s, sep) == seq![s.take(m)] + split_on(s.skip(m + 1), sep),
    decreases m,
{
    if m == s.len() {
        lemma_split_on_whole(s, sep);
    } else if m == 0 {
        assert(split_on(s, sep) =~~= seq![s.take(0)] + split_on(s.skip(1), sep));
    } else {
        let t = s.drop_first();
        lemma_split_on_nonempty(t, sep);
        lemma_split_on_chunk(t, sep, m - 1);
        assert(seq![s[0]] + t.take(m - 1) =~= s.take(m));
        assert(t.skip(m) =~= s.skip(m + 1));
        assert(split_on(s, sep) =~~= seq![s.take(m)] + split_on(s.skip(m + 1), sep));
    }
}

/// A sequence without the separator is one piece.
proof fn lemma_split_on_whole(s: Seq<char>, sep: char)
    requires
        forall|j: int| 0 <= j < s.len() ==> s[j] != sep,
    ensures
        split_on(s, sep) == seq![s],
    decreases s.len(),
{
    if s.len() == 0 {
    } else {
        let t = s.drop_first();
        lemma_split_on_whole(t, sep);
        assert(seq![s[0]] + t =~= s);
        assert(split_on(s, sep) =~~= seq![s]);
    }
}

/// The whitespace-delimited words of `s`, in order, never empty.
pub open spec fn spec_words(s: Seq<char>) -> Seq<Seq<char>>
    decreases s.len(),
{
    if s.len() == 0 {
        seq![]
    } else if is_space(s[0]) {
        spec_words(s.drop_first())
    } else if s.len() == 1 || is_space(s[1]) {
        seq![seq![s[0]]] + spec_words(s.drop_first())
    } else {
        let r = spec_words(s.drop_first());
        seq![seq![s[0]] + r[0]] + r.skip(1)
    }
}

/// Unrolls one word: a non-space run up to a space or the end is the first
/// word, and the rest of the words follow from there.
pub proof fn lemma_words_chunk(s: Seq<char>, m: int)
    requires
        1 <= m <= s.len(),
        forall|j: int| 0 <= j < m ==> !is_space(s[j]),
        m < s.len() ==> is_space(s[m]),
    ensures
        spec_words(s) == seq![s.take(m)] + spec_words(s.skip(m)),
    decreases m,
{
    if m == 1 {
        assert(s.take(1) =~= seq![s[0]]);
        if s.len() == 1 {
            assert(spec_words(s) =~~= seq![s.take(1)] + spec_words(s.skip(1)));
        } else {
            assert(is_space(s[1]));
            assert(s.skip(1) =~= s.drop_first());
            assert(spec_words(s) =~~= seq![s.take(1)] + spec_words(s.skip(1)));
        }
    } else {
        let t = s.drop_first();
        assert(!is_space(s[1]));
        lemma_words_chunk(t, m - 1);
        assert(seq![s[0]] + t.take(m - 1) =~= s.take(m));
        assert(t.skip(m - 1) =~= s.skip(m));
        assert(spec_words(s) =~~= seq![s.take(m)] + spec_words(s.skip(m)));
    }
}

/// The pieces of `s` named by a list of index ranges.
pub open spec fn ranges_to_pieces(s: Seq<char>, r: Seq<(usize, usize)>) -> Seq<Seq<char>> {
    r.map_values(|p: (usize, usize)| s.subrange(p.0 as int, p.1 as int))
}

/// All ranges lie inside `s` in order.
pub open spec fn ranges_in_bounds(s: Seq<char>, r: Seq<(usize, usize)>) -> bool {
    forall|k: int| 0 <= k < r.len() ==> (#[trigger] r[k]).0 <= r[k].1 <= s.len()
}

/// Splits `s` at every occurrence of `sep`, returning each piece as an index
/// range into `s`. The pieces are exactly [`split_on`] of the view.
pub fn split_ranges(s: &str, sep: char) -> (r: Vec<(usize, usize)>)
    ensures
        ranges_to_pieces(s@, r@) == split_on(s@, sep),
        ranges_in_bounds(s@, r@),
        r@.len() == split_on(s@, sep).len(),
{
    let n = s.unicode_len();
    let mut r: Vec<(usize, usize)> = Vec::new();
    let mut cur_start: usize = 0;
    let mut i: usize = 0;
    proof {
        assert(s@.skip(0) =~= s@);
        assert(ranges_to_pieces(s@, r@) + split_on(s@.skip(0), sep) =~~= split_on(s@, sep));
    }
    while i < n
        invariant
            0 <= cur_start <= i <= n,
            n == s@.len(),
            forall|j: int| cur_start <= j < i ==> s@[j] != sep,
            ranges_in_bounds(s@, r@),
            ranges_to_pieces(s@, r@) + split_on(s@.skip(cur_start as int), sep) =~~= split_on(
                s@,
                sep,
            ),
        decreases n - i,
    {
        let c = s.get_char(i);
        if c == sep {
            proof {
                let rem = s@.skip(cur_start as int);
                lemma_split_on_chunk(rem, sep, i - cur_start);
                assert(rem.take(i - cur_start) =~= s@.subrange(cur_start as int, i as int));
                assert(rem.skip(i - cur_start + 1) =~= s@.skip(i + 1));
                assert(ranges_to_pieces(s@, r@.push((cur_start, i))) =~~= ranges_to_pieces(
                    s@,
                    r@,
                ).push(s@.subrange(cur_start as int, i as int)));
            }
            r.push((cur_start, i));
            cur_start = i + 1;
        }
        i = i + 1;
    }
    proof {
        let rem = s@.skip(cur_start as int);
        lemma_split_on_chunk(rem, sep, n - cur_start);
        assert(rem =~= s@.subrange(cur_start as int, n as int));
        assert(ranges_to_pieces(s@, r@.push((cur_start, n))) =~~= ranges_to_pieces(s@, r@).push(
            s@.subrange(cur_start as int, n as int),
        ));
    }
    r.push((cur_start, n));
    proof {
        assert(ranges_to_pieces(s@, r@) =~~= split_on(s@, sep));
    }
    r
}

/// The position right after the word starting at `start`: the first space at
/// or after `start`, or the end.
fn scan_word_end(s: &str, start: usize) -> (e: usize)
    requires
        start <= s@.len(),
    ensures
        start <= e <= s@.len(),
        forall|j: int| start <= j < e ==> !is_space(s@[j]),
        e < s@.len() ==> is_space(s@[e as int]),
{
    let n = s.unicode_len();
    let mut e = start;
    while e < n
        invariant
            start <= e <= n,
            n == s@.len(),
            forall|j: int| start <= j < e ==> !is_space(s@[j]),
        decreases n - e,
    {
        if is_space_char(s.get_char(e)) {
            return e;
        }
        e = e + 1;
    }
    e
}

/// The whitespace-delimited words of `s`, each as an index range into `s`.
/// The pieces are exactly [`spec_words`] of the view.
pub fn word_ranges(s: &str) -> (r: Vec<(usize, usize)>)
    ensures
        ranges_to_pieces(s@, r@) == spec_words(s@),
        ranges_in_bounds(s@, r@),
        r@.len() == spec_words(s@).len(),
{
    let n = s.unicode_len();
    let mut r: Vec<(usize, usize)> = Vec::new();
    let mut i: usize = 0;
    proof {
        assert(s@.skip(0) =~= s@);
        assert(ranges_to_pieces(s@, r@) + spec_words(s@.skip(0)) =~~= spec_words(s@));
    }
    while i < n
        invariant
            0 <= i <= n,
            n == s@.len(),
            ranges_in_bounds(s@, r@),
            ranges_to_pieces(s@, r@) + spec_words(s@.skip(i as int)) =~~= spec_words(s@),
        decreases n - i,
    {
        let c = s.get_char(i);
        if is_space_char(c) {
            proof {
                assert(s@.skip(i as int).drop_first() =~= s@.skip(i + 1));
            }
            i = i + 1;
        } else {
            let e = scan_word_end(s, i + 1);
            proof {
                let rem = s@.skip(i as int);
                lemma_words_chunk(rem, e - i);
                assert(rem.take(e - i) =~= s@.subrange(i as int, e as int));
                assert(rem.skip(e - i) =~= s@.skip(e as int));
                assert(ranges_to_pieces(s@, r@.push((i, e))) =~~= ranges_to_pieces(s@, r@).push(
                    s@.subrange(i as int, e as int),
                ));
            }
            r.push((i, e));
            i = e;
        }
    }
    proof {
        assert(spec_words(s@.skip(n as int)) =~~= Seq::<Seq<char>>::empty());
        assert(ranges_to_pieces(s@, r@) =~~= spec_words(s@));
    }
    r
}

} // verus!
