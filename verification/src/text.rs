//! Splitting and joining of text, as sequences of characters.

use vstd::prelude::*;
use vstd::slice::slice_subrange;

verus! {

/// `String::push` of std appends one character to a string, which it otherwise
/// leaves as it was.
pub assume_specification[ String::push ](s: &mut String, ch: char)
    ensures
        final(s)@ == old(s)@.push(ch),
;

/// The ASCII lower-case form of one character; any character but `A` to `Z`
/// is its own.
pub open spec fn ascii_lower(c: char) -> char {
    if 'A' <= c <= 'Z' {
        (c as u8 + 32) as char
    } else {
        c
    }
}

/// `s` with every ASCII capital letter turned into its small letter.
pub open spec fn lower(s: Seq<char>) -> Seq<char> {
    s.map_values(|c: char| ascii_lower(c))
}

/// The position of the first `sep` in `s`, or the length of `s` if there is none.
pub open spec fn first_index(s: Seq<char>, sep: char) -> int
    decreases s.len(),
{
    if s.len() == 0 || s[0] == sep {
        0
    } else {
        1 + first_index(s.skip(1), sep)
    }
}

/// The pieces of `s` between the occurrences of `sep`. There is always one
/// more piece than there are separators.
pub open spec fn split(s: Seq<char>, sep: char) -> Seq<Seq<char>>
    decreases s.len(),
{
    let at = first_index(s, sep);
    if at < s.len() {
        proof {
            lemma_first_index(s, sep);
        }
        seq![s.take(at)] + split(s.skip(at + 1), sep)
    } else {
        seq![s]
    }
}

/// `pieces` in a row, with one `sep` between neighbours.
pub open spec fn join(pieces: Seq<Seq<char>>, sep: char) -> Seq<char>
    decreases pieces.len(),
{
    if pieces.len() == 0 {
        Seq::empty()
    } else if pieces.len() == 1 {
        pieces[0]
    } else {
        join(pieces.drop_last(), sep).push(sep) + pieces.last()
    }
}

/// What stands before the last `sep` of `s`, or all of `s` if there is none.
pub open spec fn before_last(s: Seq<char>, sep: char) -> Seq<char>
    decreases s.len(),
{
    if !s.contains(sep) {
        s
    } else if s.last() == sep {
        s.drop_last()
    } else {
        before_last(s.drop_last(), sep)
    }
}

/// The contents of a list of character slices.
pub open spec fn contents(pieces: Seq<&[char]>) -> Seq<Seq<char>> {
    pieces.map_values(|piece: &[char]| piece@)
}

/// [`first_index`] finds a position within `s`, the first that holds `sep`.
pub proof fn lemma_first_index(s: Seq<char>, sep: char)
    ensures
        0 <= first_index(s, sep) <= s.len(),
        first_index(s, sep) < s.len() ==> s[first_index(s, sep)] == sep,
        forall|i: int| 0 <= i < first_index(s, sep) ==> s[i] != sep,
    decreases s.len(),
{
    if s.len() > 0 && s[0] != sep {
        lemma_first_index(s.skip(1), sep);
        assert forall|i: int| 0 <= i < first_index(s, sep) implies s[i] != sep by {
            if i > 0 {
                assert(s.skip(1)[i - 1] == s[i]);
            }
        }
    }
}

/// A position that holds `sep`, with none before it, is the one that
/// [`first_index`] finds.
pub proof fn lemma_first_index_is(s: Seq<char>, sep: char, at: int)
    requires
        0 <= at <= s.len(),
        at < s.len() ==> s[at] == sep,
        forall|i: int| 0 <= i < at ==> s[i] != sep,
    ensures
        first_index(s, sep) == at,
{
    lemma_first_index(s, sep);
}

/// No character of `s` is `sep`.
pub open spec fn free_of(s: Seq<char>, sep: char) -> bool {
    all_chars(s, |c: char| c != sep)
}

/// Every character of `s` meets `pred`.
pub open spec fn all_chars(s: Seq<char>, pred: spec_fn(char) -> bool) -> bool {
    forall|i: int| 0 <= i < s.len() ==> pred(#[trigger] s[i])
}

/// Every character of every piece meets `pred`.
pub open spec fn all_pieces(pieces: Seq<Seq<char>>, pred: spec_fn(char) -> bool) -> bool {
    forall|i: int| 0 <= i < pieces.len() ==> all_chars(#[trigger] pieces[i], pred)
}

/// What all characters of a text have in common, those of its pieces have too.
pub proof fn lemma_split_all(s: Seq<char>, sep: char, pred: spec_fn(char) -> bool)
    requires
        all_chars(s, pred),
    ensures
        all_pieces(split(s, sep), pred),
    decreases s.len(),
{
    lemma_first_index(s, sep);
    let at = first_index(s, sep);
    if at < s.len() {
        let rest = s.skip(at + 1);
        assert(all_chars(rest, pred)) by {
            assert forall|i: int| 0 <= i < rest.len() implies pred(#[trigger] rest[i]) by {
                assert(rest[i] == s[i + at + 1]);
            }
        }
        assert(all_chars(s.take(at), pred)) by {
            assert forall|i: int| 0 <= i < at implies pred(#[trigger] s.take(at)[i]) by {
                assert(s.take(at)[i] == s[i]);
            }
        }
        lemma_split_all(rest, sep, pred);
        let pieces = split(s, sep);
        assert forall|i: int| 0 <= i < pieces.len() implies all_chars(#[trigger] pieces[i], pred) by {
            if i > 0 {
                assert(pieces[i] == split(rest, sep)[i - 1]);
            }
        }
    }
}

/// What all characters of the pieces have in common, the separator included,
/// those of the joined text have too.
pub proof fn lemma_join_all(pieces: Seq<Seq<char>>, sep: char, pred: spec_fn(char) -> bool)
    requires
        all_pieces(pieces, pred),
        pred(sep),
    ensures
        all_chars(join(pieces, sep), pred),
    decreases pieces.len(),
{
    if pieces.len() > 1 {
        let head = pieces.drop_last();
        assert forall|i: int| 0 <= i < head.len() implies all_chars(#[trigger] head[i], pred) by {
            assert(head[i] == pieces[i]);
        }
        lemma_join_all(head, sep, pred);
        assert(all_chars(pieces.last(), pred));
        let joined = join(pieces, sep);
        let front = join(head, sep).push(sep);
        assert forall|i: int| 0 <= i < joined.len() implies pred(#[trigger] joined[i]) by {
            if i < front.len() - 1 {
                assert(joined[i] == join(head, sep)[i]);
            } else if i >= front.len() {
                assert(joined[i] == pieces.last()[i - front.len()]);
            }
        }
    }
}

/// What all characters of a text have in common, those before its last
/// separator have too.
pub proof fn lemma_before_last_all(s: Seq<char>, sep: char, pred: spec_fn(char) -> bool)
    requires
        all_chars(s, pred),
    ensures
        all_chars(before_last(s, sep), pred),
    decreases s.len(),
{
    if s.contains(sep) {
        let head = s.drop_last();
        assert forall|i: int| 0 <= i < head.len() implies pred(#[trigger] head[i]) by {
            assert(head[i] == s[i]);
        }
        if s.last() != sep {
            lemma_before_last_all(head, sep, pred);
        }
    }
}

/// A text without separator is its own only piece, and has nothing after its
/// last separator.
pub proof fn lemma_split_free(s: Seq<char>, sep: char)
    requires
        free_of(s, sep),
    ensures
        split(s, sep) == seq![s],
        before_last(s, sep) == s,
{
    lemma_first_index_is(s, sep, s.len() as int);
    assert(!s.contains(sep));
}

/// A separator between two texts keeps their pieces apart.
pub proof fn lemma_split_concat(a: Seq<char>, b: Seq<char>, sep: char)
    ensures
        split(a.push(sep) + b, sep) == split(a, sep) + split(b, sep),
    decreases a.len(),
{
    let whole = a.push(sep) + b;
    let at = first_index(a, sep);
    lemma_first_index(a, sep);
    assert forall|i: int| 0 <= i < at implies whole[i] != sep by {
        assert(whole[i] == a[i]);
    }
    lemma_first_index_is(whole, sep, at);
    assert(whole.take(at) == a.take(at));
    if at < a.len() {
        let rest = a.skip(at + 1);
        assert(whole.skip(at + 1) == rest.push(sep) + b);
        lemma_split_concat(rest, b, sep);
        assert(split(whole, sep) == split(a, sep) + split(b, sep));
    } else {
        assert(whole.skip(at + 1) == b);
        assert(a.take(at) == a);
    }
}

/// The last separator before a separator-free tail is the one right before it.
pub proof fn lemma_before_last_concat(a: Seq<char>, b: Seq<char>, sep: char)
    requires
        free_of(b, sep),
    ensures
        before_last(a.push(sep) + b, sep) == a,
    decreases b.len(),
{
    let whole = a.push(sep) + b;
    assert(whole[a.len() as int] == sep);
    if b.len() > 0 {
        let shorter = b.drop_last();
        assert forall|i: int| 0 <= i < shorter.len() implies #[trigger] shorter[i] != sep by {
            assert(shorter[i] == b[i]);
        }
        assert(whole.last() == b.last());
        assert(b[b.len() - 1] != sep);
        assert(whole.drop_last() == a.push(sep) + shorter);
        lemma_before_last_concat(a, shorter, sep);
    } else {
        assert(whole.drop_last() == a);
    }
}

/// One piece in front of the others.
proof fn lemma_join_prepend(first: Seq<char>, rest: Seq<Seq<char>>, sep: char)
    requires
        rest.len() > 0,
    ensures
        join(seq![first] + rest, sep) == first.push(sep) + join(rest, sep),
    decreases rest.len(),
{
    let pieces = seq![first] + rest;
    assert(pieces.last() == rest.last());
    if rest.len() == 1 {
        assert(pieces.drop_last() == seq![first]);
        assert(join(seq![first], sep) == first);
    } else {
        assert(pieces.drop_last() == seq![first] + rest.drop_last());
        lemma_join_prepend(first, rest.drop_last(), sep);
    }
}

/// Joining undoes splitting: the pieces of a text, none of which holds the
/// separator, give the text back.
pub proof fn law_join_split(s: Seq<char>, sep: char)
    ensures
        join(split(s, sep), sep) == s,
        split(s, sep).len() > 0,
        all_pieces(split(s, sep), |c: char| c != sep),
    decreases s.len(),
{
    lemma_first_index(s, sep);
    let at = first_index(s, sep);
    if at < s.len() {
        let rest = s.skip(at + 1);
        law_join_split(rest, sep);
        lemma_join_prepend(s.take(at), split(rest, sep), sep);
        assert(s == s.take(at).push(sep) + rest);
        let pieces = split(s, sep);
        assert forall|i: int| 0 <= i < pieces.len() implies free_of(#[trigger] pieces[i], sep) by {
            if i > 0 {
                assert(pieces[i] == split(rest, sep)[i - 1]);
            }
        }
    } else {
        assert(join(seq![s], sep) == s);
    }
}

/// Splitting undoes joining, for one piece or more without a separator in them.
pub proof fn law_split_join(pieces: Seq<Seq<char>>, sep: char)
    requires
        pieces.len() > 0,
        all_pieces(pieces, |c: char| c != sep),
    ensures
        split(join(pieces, sep), sep) == pieces,
    decreases pieces.len(),
{
    let last = pieces.last();
    assert(free_of(last, sep));
    lemma_split_free(last, sep);
    if pieces.len() > 1 {
        let head = pieces.drop_last();
        assert forall|i: int| 0 <= i < head.len() implies free_of(#[trigger] head[i], sep) by {
            assert(head[i] == pieces[i]);
        }
        law_split_join(head, sep);
        lemma_split_concat(join(head, sep), last, sep);
        assert(head.push(last) == pieces);
        assert(split(join(pieces, sep), sep) == pieces);
    } else {
        assert(pieces == seq![last]);
    }
}

/// Lower-casing goes character by character.
pub proof fn lemma_lower_concat(a: Seq<char>, b: Seq<char>)
    ensures
        lower(a + b) == lower(a) + lower(b),
{
    assert(lower(a + b) =~= lower(a) + lower(b));
}

/// Lower-casing neither adds nor removes a `#` or an `&`.
pub proof fn lemma_lower_free(s: Seq<char>, sep: char)
    requires
        sep == '#' || sep == '&',
        free_of(s, sep),
    ensures
        free_of(lower(s), sep),
        lower(s.push(sep)) == lower(s).push(sep),
{
    assert(lower(s.push(sep)) =~= lower(s).push(sep));
    assert forall|i: int| 0 <= i < s.len() implies #[trigger] lower(s)[i] != sep by {
        assert(s[i] != sep);
    }
}

/// The pieces, each lower-cased.
pub open spec fn lower_all(pieces: Seq<Seq<char>>) -> Seq<Seq<char>> {
    pieces.map_values(|piece: Seq<char>| lower(piece))
}

/// Lower-casing joined pieces is joining lower-cased pieces.
pub proof fn lemma_lower_join(pieces: Seq<Seq<char>>, sep: char)
    requires
        sep == '#' || sep == '&',
    ensures
        lower(join(pieces, sep)) == join(lower_all(pieces), sep),
    decreases pieces.len(),
{
    if pieces.len() == 0 {
        assert(lower(Seq::<char>::empty()) =~= Seq::<char>::empty());
    } else if pieces.len() > 1 {
        let head = pieces.drop_last();
        lemma_lower_join(head, sep);
        lemma_lower_concat(join(head, sep).push(sep), pieces.last());
        assert(lower(join(head, sep).push(sep)) =~= lower(join(head, sep)).push(sep));
        assert(lower_all(pieces).drop_last() == lower_all(head));
    }
}

/// The characters of `s`, lower-cased.
pub fn lower_chars(s: &str) -> (chars: Vec<char>)
    ensures
        chars@ == lower(s@),
{
    let mut chars: Vec<char> = Vec::new();
    for c in it: s.chars()
        invariant
            it.seq() == s@,
            chars@ == lower(s@.take(it.index() as int)),
    {
        chars.push(if 'A' <= c && c <= 'Z' { (c as u8 + 32) as char } else { c });
        assert(s@.take(it.index() + 1) == s@.take(it.index() as int).push(c));
    }
    assert(s@.take(s@.len() as int) == s@);
    chars
}

/// Cuts `s` at every `sep`.
pub fn split_chars<'a>(s: &'a [char], sep: char) -> (pieces: Vec<&'a [char]>)
    ensures
        contents(pieces@) == split(s@, sep),
{
    let mut pieces: Vec<&'a [char]> = Vec::new();
    let mut start: usize = 0;
    let mut i: usize = 0;
    assert(s@.skip(0) == s@);
    while i < s.len()
        invariant
            start <= i <= s@.len(),
            forall|j: int| start <= j < i ==> s@[j] != sep,
            split(s@, sep) == contents(pieces@) + split(s@.skip(start as int), sep),
        decreases s@.len() - i,
    {
        if s[i] == sep {
            let piece = slice_subrange(s, start, i);
            proof {
                let rest = s@.skip(start as int);
                lemma_first_index_is(rest, sep, i - start);
                assert(rest.take(i - start) == piece@);
                assert(rest.skip(i - start + 1) == s@.skip(i + 1));
                assert(contents(pieces@.push(piece)) == contents(pieces@).push(piece@));
            }
            pieces.push(piece);
            start = i + 1;
        }
        i = i + 1;
    }
    let piece = slice_subrange(s, start, s.len());
    proof {
        let rest = s@.skip(start as int);
        lemma_first_index_is(rest, sep, rest.len() as int);
        assert(rest == piece@);
        assert(contents(pieces@.push(piece)) == contents(pieces@).push(piece@));
    }
    pieces.push(piece);
    pieces
}

/// Puts `pieces` in a row, with one `sep` between neighbours.
pub fn join_chars(pieces: &Vec<&[char]>, sep: char) -> (joined: Vec<char>)
    ensures
        joined@ == join(contents(pieces@), sep),
{
    let mut joined: Vec<char> = Vec::new();
    let mut i: usize = 0;
    while i < pieces.len()
        invariant
            i <= pieces@.len(),
            joined@ == join(contents(pieces@).take(i as int), sep),
        decreases pieces@.len() - i,
    {
        if i > 0 {
            joined.push(sep);
        }
        let ghost before = joined@;
        let piece = pieces[i];
        let mut j: usize = 0;
        while j < piece.len()
            invariant
                j <= piece@.len(),
                joined@ == before + piece@.take(j as int),
            decreases piece@.len() - j,
        {
            joined.push(piece[j]);
            j = j + 1;
            assert(piece@.take(j as int) == piece@.take(j - 1).push(piece@[j - 1]));
        }
        proof {
            assert(piece@.take(j as int) == piece@);
            let upto = contents(pieces@).take(i + 1);
            assert(upto.drop_last() == contents(pieces@).take(i as int));
            assert(upto.last() == piece@);
        }
        i = i + 1;
    }
    assert(contents(pieces@).take(i as int) == contents(pieces@));
    joined
}

/// What stands before the last `sep` of `s`, or all of `s` if there is none.
pub fn before_last_chars(s: &[char], sep: char) -> (head: &[char])
    ensures
        head@ == before_last(s@, sep),
{
    let mut end: usize = s.len();
    assert(s@.take(end as int) == s@);
    while end > 0
        invariant
            end <= s@.len(),
            before_last(s@.take(end as int), sep) == before_last(s@, sep) || !s@.contains(sep),
            forall|j: int| end <= j < s@.len() ==> s@[j] != sep,
        decreases end,
    {
        end = end - 1;
        let ghost upto = s@.take(end + 1);
        if s[end] == sep {
            assert(upto[end as int] == sep);
            assert(s@[end as int] == sep);
            assert(upto.drop_last() == s@.take(end as int));
            return slice_subrange(s, 0, end);
        }
        proof {
            assert(upto.drop_last() == s@.take(end as int));
            if s@.contains(sep) {
                let j = choose|j: int| 0 <= j < s@.len() && s@[j] == sep;
                assert(upto[j] == sep);
            }
        }
    }
    s
}

/// The string made of `chars`.
pub fn string_of(chars: &[char]) -> (s: String)
    ensures
        s@ == chars@,
{
    let mut s = String::new();
    let mut i: usize = 0;
    while i < chars.len()
        invariant
            i <= chars@.len(),
            s@ == chars@.take(i as int),
        decreases chars@.len() - i,
    {
        s.push(chars[i]);
        i = i + 1;
        assert(chars@.take(i as int) == chars@.take(i - 1).push(chars@[i - 1]));
    }
    assert(chars@.take(i as int) == chars@);
    s
}

/// Lower-casing keeps the length of a text and goes character by character:
/// `A` to `Z` move up by 32, to `a` to `z`, all else stays.
pub proof fn law_lower_maps_ascii_capitals(s: Seq<char>)
    ensures
        lower(s).len() == s.len(),
        forall|i: int|
            0 <= i < s.len() ==> (#[trigger] lower(s)[i]) as int == (if 65 <= s[i] as int
                && s[i] as int <= 90 {
                s[i] as int + 32
            } else {
                s[i] as int
            }),
{
    assert forall|i: int| 0 <= i < s.len() implies (#[trigger] lower(s)[i]) as int == (if 65
        <= s[i] as int && s[i] as int <= 90 {
        s[i] as int + 32
    } else {
        s[i] as int
    }) by {
        let c = s[i];
        assert(lower(s)[i] == ascii_lower(c));
    }
}

/// No piece of a split text holds the separator.
pub proof fn law_pieces_hold_no_separator(s: Seq<char>, sep: char)
    ensures
        forall|i: int| 0 <= i < split(s, sep).len() ==> !(#[trigger] split(s, sep)[i]).contains(sep),
{
    law_join_split(s, sep);
    assert forall|i: int| 0 <= i < split(s, sep).len() implies !(#[trigger] split(
        s,
        sep,
    )[i]).contains(sep) by {
        assert(free_of(split(s, sep)[i], sep));
        law_free_of(split(s, sep)[i], sep);
    }
}

/// A text is free of a character exactly if it does not contain it.
pub proof fn law_free_of(s: Seq<char>, sep: char)
    ensures
        free_of(s, sep) <==> !s.contains(sep),
{
    if !s.contains(sep) {
        assert forall|i: int| 0 <= i < s.len() implies #[trigger] s[i] != sep by {
            assert(s.contains(s[i]));
        }
    }
}

/// Joining nothing gives nothing, joining one piece gives that piece, and one
/// more piece adds one separator and itself.
pub proof fn law_join_adds_piece_by_piece(pieces: Seq<Seq<char>>, piece: Seq<char>, sep: char)
    ensures
        join(Seq::empty(), sep) == Seq::<char>::empty(),
        join(seq![piece], sep) == piece,
        pieces.len() > 0 ==> join(pieces.push(piece), sep) == join(pieces, sep) + seq![sep] + piece,
{
    if pieces.len() > 0 {
        assert(pieces.push(piece).drop_last() == pieces);
        assert(join(pieces, sep).push(sep) == join(pieces, sep) + seq![sep]);
    }
}

/// What stands before the last separator: everything up to it, or all of a text
/// without one.
pub proof fn law_before_last_cuts_at_the_last_separator(head: Seq<char>, tail: Seq<char>, sep: char)
    requires
        !tail.contains(sep),
    ensures
        before_last(head + seq![sep] + tail, sep) == head,
        before_last(tail, sep) == tail,
{
    law_free_of(tail, sep);
    lemma_before_last_concat(head, tail, sep);
    assert(head + seq![sep] == head.push(sep));
}

/// The contents of a list of slices are those of its slices, one for one, and the
/// pieces of a list are lower-cased one for one.
pub proof fn law_lists_go_one_for_one(slices: Seq<&[char]>, pieces: Seq<Seq<char>>)
    ensures
        contents(slices).len() == slices.len(),
        forall|i: int| 0 <= i < slices.len() ==> #[trigger] contents(slices)[i] == slices[i]@,
        lower_all(pieces).len() == pieces.len(),
        forall|i: int| 0 <= i < pieces.len() ==> #[trigger] lower_all(pieces)[i] == lower(pieces[i]),
{
}

} // verus!
