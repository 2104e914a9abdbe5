//! Grouping of Windows HID interface paths.
//!
//! A path looks like
//! `\\?\HID#VID_046D&PID_C548&MI_02&Col01#7&348660ac&0&0000#{guid}`: a prefix,
//! a hardware id, an instance id and a class guid, with `#` between them. The
//! short and long HID++ collections of one receiver share everything but the
//! `&Col0X` token of the hardware id and the last `&` segment of the instance
//! id. Without these two, what is left of the hardware id and of the instance
//! id is a key that both collections share.

use vstd::prelude::*;
use crate::text::{
    all_chars, all_pieces, ascii_lower, before_last, before_last_chars, contents, first_index,
    free_of, join, join_chars, law_before_last_cuts_at_the_last_separator, law_free_of,
    law_join_split, law_lower_maps_ascii_capitals, law_split_join, lemma_before_last_all,
    lemma_before_last_concat, lemma_first_index, lemma_join_all, lemma_lower_concat,
    lemma_lower_free, lemma_lower_join, lemma_split_all, lemma_split_concat, lemma_split_free,
    lower, lower_all, lower_chars, split, split_chars, string_of,
};

verus! {

/// A token of a lower-cased hardware id that names a collection, as `col01` does.
pub open spec fn is_collection_token(token: Seq<char>) -> bool {
    seq!['c', 'o', 'l'].is_prefix_of(token)
}

/// The `#`-delimited segments of the lower-cased path.
pub open spec fn segments(path: Seq<char>) -> Seq<Seq<char>> {
    split(lower(path), '#')
}

/// The path has a hardware id and an instance id.
pub open spec fn recognized(path: Seq<char>) -> bool {
    segments(path).len() >= 3
}

/// The tokens of the hardware id that do not name a collection, in order.
pub open spec fn hardware_tokens(path: Seq<char>) -> Seq<Seq<char>> {
    split(segments(path)[1], '&').filter(|token: Seq<char>| !is_collection_token(token))
}

/// The hardware id without its collection tokens.
pub open spec fn hardware_key(path: Seq<char>) -> Seq<char> {
    join(hardware_tokens(path), '&')
}

/// The instance id without its last `&` segment.
pub open spec fn instance_key(path: Seq<char>) -> Seq<char> {
    before_last(segments(path)[2], '&')
}

/// The key of a path: what its hardware id and its instance id keep, or the
/// whole lower-cased path where these two are not there.
pub open spec fn collection_key(path: Seq<char>) -> Seq<char> {
    if recognized(path) {
        hardware_key(path).push('#') + instance_key(path)
    } else {
        lower(path)
    }
}

/// Whether `token` starts with `col`.
fn names_collection(token: &[char]) -> (named: bool)
    ensures
        named == is_collection_token(token@),
{
    let named = token.len() >= 3 && token[0] == 'c' && token[1] == 'o' && token[2] == 'l';
    proof {
        let col = seq!['c', 'o', 'l'];
        if named {
            assert(col == token@.subrange(0, 3));
        } else if token@.len() >= 3 {
            let head = token@.subrange(0, 3);
            assert(head[0] == token@[0] && head[1] == token@[1] && head[2] == token@[2]);
            assert(col[0] == 'c' && col[1] == 'o' && col[2] == 'l');
        }
    }
    named
}

/// The `&`-delimited tokens of `hardware_id` that do not name a collection.
fn interface_tokens<'a>(hardware_id: &'a [char]) -> (kept: Vec<&'a [char]>)
    ensures
        contents(kept@) == split(hardware_id@, '&').filter(
            |token: Seq<char>| !is_collection_token(token),
        ),
{
    let tokens = split_chars(hardware_id, '&');
    let ghost pred = |token: Seq<char>| !is_collection_token(token);
    let mut kept: Vec<&'a [char]> = Vec::new();
    let mut i: usize = 0;
    proof {
        reveal(Seq::filter);
        assert(contents(kept@) == contents(tokens@).take(0).filter(pred));
    }
    while i < tokens.len()
        invariant
            i <= tokens@.len(),
            pred == (|token: Seq<char>| !is_collection_token(token)),
            contents(kept@) == contents(tokens@).take(i as int).filter(pred),
        decreases tokens@.len() - i,
    {
        let token = tokens[i];
        let ghost before = kept@;
        if !names_collection(token) {
            kept.push(token);
            assert(contents(kept@) == contents(before).push(token@));
        }
        i = i + 1;
        proof {
            reveal(Seq::filter);
            let upto = contents(tokens@).take(i as int);
            assert(upto.drop_last() == contents(tokens@).take(i - 1));
            assert(upto.last() == token@);
        }
    }
    assert(contents(tokens@).take(i as int) == contents(tokens@));
    kept
}

/// Whether the path has a hardware id and an instance id.
pub fn is_recognized(path: &str) -> (yes: bool)
    ensures
        yes == recognized(path@),
{
    split_chars(lower_chars(path).as_slice(), '#').len() >= 3
}

/// The key shared by the short and long HID++ collections of one interface,
/// from the path of either: the hardware id without its `col..` tokens, `#`, and
/// the instance id without its last segment, all in lower case. A path of any
/// other shape is its own key, in lower case.
pub fn normalize_collection_path(path: &str) -> (key: String)
    ensures
        key@ == collection_key(path@),
{
    let lowered = lower_chars(path);
    let parts = split_chars(lowered.as_slice(), '#');
    if parts.len() < 3 {
        return string_of(lowered.as_slice());
    }
    assert(contents(parts@)[1] == parts@[1]@ && contents(parts@)[2] == parts@[2]@);
    let kept = interface_tokens(parts[1]);
    let mut key = string_of(join_chars(&kept, '&').as_slice());
    key.push('#');
    key.append(string_of(before_last_chars(parts[2], '&')).as_str());
    key
}

/// The path of a collection: `prefix#tokens#instance&index#class`, with `&`
/// between the tokens of the hardware id.
pub open spec fn interface_path(
    prefix: Seq<char>,
    tokens: Seq<Seq<char>>,
    instance: Seq<char>,
    index: Seq<char>,
    class: Seq<char>,
) -> Seq<char> {
    prefix.push('#') + (join(tokens, '&').push('#') + ((instance.push('&') + index).push('#')
        + class))
}

/// The parts of an [`interface_path`] hold none of the separators that set
/// them apart.
pub open spec fn interface_parts(
    prefix: Seq<char>,
    tokens: Seq<Seq<char>>,
    instance: Seq<char>,
    index: Seq<char>,
) -> bool {
    &&& free_of(prefix, '#')
    &&& tokens.len() > 0
    &&& all_pieces(tokens, |c: char| c != '#')
    &&& all_pieces(tokens, |c: char| c != '&')
    &&& free_of(instance, '#')
    &&& free_of(index, '#')
    &&& free_of(index, '&')
}

/// An [`interface_path`] is recognized, and its key is made of the tokens that do not name a
/// collection and of the instance; prefix, index and class leave no trace.
pub proof fn law_key_of_interface_path(
    prefix: Seq<char>,
    tokens: Seq<Seq<char>>,
    instance: Seq<char>,
    index: Seq<char>,
    class: Seq<char>,
)
    requires
        interface_parts(prefix, tokens, instance, index),
    ensures
        recognized(interface_path(prefix, tokens, instance, index, class)),
        collection_key(interface_path(prefix, tokens, instance, index, class)) == join(
            lower_all(tokens).filter(|token: Seq<char>| !is_collection_token(token)),
            '&',
        ).push('#') + lower(instance),
{
    let path = interface_path(prefix, tokens, instance, index, class);
    let hardware = join(tokens, '&');
    let tail = instance.push('&') + index;
    let not_hash = |c: char| c != '#';

    lemma_join_all(tokens, '&', not_hash);
    assert(free_of(tail, '#')) by {
        assert forall|i: int| 0 <= i < tail.len() implies #[trigger] tail[i] != '#' by {
            if i < instance.len() {
                assert(tail[i] == instance[i]);
            } else if i > instance.len() {
                assert(tail[i] == index[i - instance.len() - 1]);
            }
        }
    }
    lemma_lower_free(prefix, '#');
    lemma_lower_free(hardware, '#');
    lemma_lower_free(tail, '#');
    lemma_lower_concat(tail.push('#'), class);
    lemma_lower_concat(hardware.push('#'), tail.push('#') + class);
    lemma_lower_concat(prefix.push('#'), hardware.push('#') + (tail.push('#') + class));

    lemma_split_concat(lower(tail), lower(class), '#');
    lemma_split_concat(lower(hardware), lower(tail).push('#') + lower(class), '#');
    lemma_split_concat(
        lower(prefix),
        lower(hardware).push('#') + (lower(tail).push('#') + lower(class)),
        '#',
    );
    lemma_split_free(lower(prefix), '#');
    lemma_split_free(lower(hardware), '#');
    lemma_split_free(lower(tail), '#');
    law_join_split(lower(class), '#');
    assert(segments(path).len() >= 3);
    assert(segments(path)[1] == lower(hardware));
    assert(segments(path)[2] == lower(tail));

    lemma_lower_join(tokens, '&');
    let lowered = lower_all(tokens);
    assert forall|i: int| 0 <= i < lowered.len() implies free_of(#[trigger] lowered[i], '&') by {
        assert(free_of(tokens[i], '&'));
        lemma_lower_free(tokens[i], '&');
    }
    law_split_join(lowered, '&');

    lemma_lower_concat(instance.push('&'), index);
    lemma_lower_free(index, '&');
    assert(lower(instance.push('&')) =~= lower(instance).push('&'));
    lemma_before_last_concat(lower(instance), lower(index), '&');
}

/// The short and long collections of one interface have the same key: whichever
/// collection token stands among the tokens of the hardware id, and whichever
/// index ends the instance id, the key does not show it.
pub proof fn law_collections_of_one_interface_share_a_key(
    prefix: Seq<char>,
    before: Seq<Seq<char>>,
    short_token: Seq<char>,
    long_token: Seq<char>,
    after: Seq<Seq<char>>,
    instance: Seq<char>,
    short_index: Seq<char>,
    long_index: Seq<char>,
    class: Seq<char>,
)
    requires
        interface_parts(prefix, before.push(short_token) + after, instance, short_index),
        interface_parts(prefix, before.push(long_token) + after, instance, long_index),
        is_collection_token(lower(short_token)),
        is_collection_token(lower(long_token)),
    ensures
        collection_key(
            interface_path(prefix, before.push(short_token) + after, instance, short_index, class),
        ) == collection_key(
            interface_path(prefix, before.push(long_token) + after, instance, long_index, class),
        ),
{
    law_key_of_interface_path(
        prefix,
        before.push(short_token) + after,
        instance,
        short_index,
        class,
    );
    law_key_of_interface_path(
        prefix,
        before.push(long_token) + after,
        instance,
        long_index,
        class,
    );
    lemma_collection_token_drops(before, short_token, after);
    lemma_collection_token_drops(before, long_token, after);
}

/// A collection token among others does not survive.
proof fn lemma_collection_token_drops(
    before: Seq<Seq<char>>,
    token: Seq<char>,
    after: Seq<Seq<char>>,
)
    requires
        is_collection_token(lower(token)),
    ensures
        lower_all(before.push(token) + after).filter(
            |token: Seq<char>| !is_collection_token(token),
        ) == lower_all(before).filter(|token: Seq<char>| !is_collection_token(token)) + lower_all(
            after,
        ).filter(|token: Seq<char>| !is_collection_token(token)),
{
    let pred = |token: Seq<char>| !is_collection_token(token);
    let front = lower_all(before).push(lower(token));
    assert(lower_all(before.push(token) + after) == front + lower_all(after));
    Seq::filter_distributes_over_add(front, lower_all(after), pred);
    reveal(Seq::filter);
    assert(front.drop_last() == lower_all(before));
}

/// Neither part of a key holds a `#`.
proof fn lemma_key_parts_free(path: Seq<char>)
    requires
        recognized(path),
    ensures
        free_of(hardware_key(path), '#'),
        free_of(instance_key(path), '#'),
{
    let not_hash = |c: char| c != '#';
    law_join_split(lower(path), '#');
    let hardware = segments(path)[1];
    let instance = segments(path)[2];
    assert(all_chars(hardware, not_hash) && all_chars(instance, not_hash));
    lemma_before_last_all(instance, '&', not_hash);
    lemma_split_all(hardware, '&', not_hash);
    lemma_hardware_tokens_all(path, not_hash);
    lemma_join_all(hardware_tokens(path), '&', not_hash);
}

/// What all characters of all pieces of the hardware id have in common, those of
/// the kept tokens have too.
proof fn lemma_hardware_tokens_all(path: Seq<char>, pred: spec_fn(char) -> bool)
    requires
        all_pieces(split(segments(path)[1], '&'), pred),
    ensures
        all_pieces(hardware_tokens(path), pred),
{
    let pieces = split(segments(path)[1], '&');
    let kept = hardware_tokens(path);
    assert forall|i: int| 0 <= i < kept.len() implies all_chars(#[trigger] kept[i], pred) by {
        pieces.lemma_filter_contains_rev(|token: Seq<char>| !is_collection_token(token), kept[i]);
        let j = choose|j: int| 0 <= j < pieces.len() && pieces[j] == kept[i];
        assert(all_chars(pieces[j], pred));
    }
}

/// Two recognized paths have the same key exactly if they agree in what is left
/// of the hardware id and in what is left of the instance id: the keys of
/// distinct interfaces are distinct.
pub proof fn law_keys_tell_interfaces_apart(p: Seq<char>, q: Seq<char>)
    requires
        recognized(p),
        recognized(q),
    ensures
        collection_key(p) == collection_key(q) <==> hardware_key(p) == hardware_key(q)
            && instance_key(p) == instance_key(q),
{
    lemma_key_parts_free(p);
    lemma_key_parts_free(q);
    lemma_split_key(p);
    lemma_split_key(q);
    if collection_key(p) == collection_key(q) {
        let pieces = split(collection_key(p), '#');
        assert(pieces[0] == hardware_key(p) && pieces[0] == hardware_key(q));
        assert(pieces[1] == instance_key(p) && pieces[1] == instance_key(q));
    }
}

/// A key of a recognized path has two `#`-delimited parts.
proof fn lemma_split_key(path: Seq<char>)
    requires
        recognized(path),
    ensures
        split(collection_key(path), '#') == seq![hardware_key(path), instance_key(path)],
{
    lemma_key_parts_free(path);
    lemma_split_concat(hardware_key(path), instance_key(path), '#');
    lemma_split_free(hardware_key(path), '#');
    lemma_split_free(instance_key(path), '#');
    assert(split(collection_key(path), '#') =~= seq![hardware_key(path), instance_key(path)]);
}

/// Where two hardware ids keep different tokens (another vendor, product or
/// interface), the keys differ, unless nothing is left of either hardware id.
pub proof fn law_distinct_hardware_has_distinct_keys(p: Seq<char>, q: Seq<char>)
    requires
        recognized(p),
        recognized(q),
        hardware_tokens(p) != hardware_tokens(q),
        hardware_key(p).len() > 0 || hardware_key(q).len() > 0,
    ensures
        collection_key(p) != collection_key(q),
{
    law_keys_tell_interfaces_apart(p, q);
    if hardware_key(p) == hardware_key(q) {
        lemma_hardware_tokens_rejoin(p);
        lemma_hardware_tokens_rejoin(q);
    }
}

/// The tokens of a hardware key are the tokens that it was made of.
proof fn lemma_hardware_tokens_rejoin(path: Seq<char>)
    requires
        hardware_tokens(path).len() > 0,
    ensures
        split(hardware_key(path), '&') == hardware_tokens(path),
{
    let not_amp = |c: char| c != '&';
    let hardware = segments(path)[1];
    law_join_split(hardware, '&');
    lemma_hardware_tokens_all(path, not_amp);
    law_split_join(hardware_tokens(path), '&');
}

/// Where the key of an unrecognized path meets that of another: with a path that
/// spells the same text, up to ASCII case, or else, if it holds exactly one `#`,
/// with a recognized path whose key happens to spell it.
pub proof fn law_where_unrecognized_keys_meet(p: Seq<char>, q: Seq<char>)
    requires
        !recognized(p),
    ensures
        collection_key(p) == collection_key(q) <==> {
            ||| lower(p) == lower(q)
            ||| recognized(q) && segments(p).len() == 2 && lower(p) == hardware_key(q).push('#')
                + instance_key(q)
        },
{
    if recognized(q) {
        lemma_split_key(q);
    }
}

/// The case of ASCII letters in a path does not show in its key.
pub proof fn law_key_ignores_case(p: Seq<char>, q: Seq<char>)
    requires
        lower(p) == lower(q),
    ensures
        collection_key(p) == collection_key(q),
{
}

/// A key holds no ASCII capital letter.
pub proof fn law_key_is_lower_case(path: Seq<char>)
    ensures
        lower(collection_key(path)) == collection_key(path),
{
    let small = |c: char| ascii_lower(c) == c;
    let key = collection_key(path);
    assert(all_chars(lower(path), small));
    if recognized(path) {
        let hardware = segments(path)[1];
        let instance = segments(path)[2];
        lemma_split_all(lower(path), '#', small);
        assert(all_chars(hardware, small) && all_chars(instance, small));
        lemma_before_last_all(instance, '&', small);
        lemma_split_all(hardware, '&', small);
        lemma_hardware_tokens_all(path, small);
        lemma_join_all(hardware_tokens(path), '&', small);
        assert forall|i: int| 0 <= i < key.len() implies ascii_lower(#[trigger] key[i]) == key[i] by {
            let cut = hardware_key(path).len();
            if i < cut {
                assert(key[i] == hardware_key(path)[i]);
                assert(small(hardware_key(path)[i]));
            } else if i > cut {
                assert(key[i] == instance_key(path)[i - cut - 1]);
                assert(small(instance_key(path)[i - cut - 1]));
            }
        }
    } else {
        assert forall|i: int| 0 <= i < key.len() implies ascii_lower(#[trigger] key[i]) == key[i] by {
            assert(small(lower(path)[i]));
        }
    }
    assert(lower(key) =~= key);
}

/// A path has a hardware id and an instance id exactly if it holds two `#` or
/// more.
pub proof fn law_recognized_paths_have_two_hashes(path: Seq<char>)
    ensures
        recognized(path) <==> exists|i: int, j: int|
            0 <= i < j < path.len() && path[i] == '#' && path[j] == '#',
{
    let s = lower(path);
    law_lower_maps_ascii_capitals(path);
    lemma_first_index(s, '#');
    let at = first_index(s, '#');
    if at < s.len() {
        let rest = s.skip(at + 1);
        lemma_first_index(rest, '#');
        let next = first_index(rest, '#');
        law_join_split(rest, '#');
        if next < rest.len() {
            assert(rest[next] == s[at + 1 + next]);
            assert(path[at] == '#' && path[at + 1 + next] == '#');
            law_join_split(rest.skip(next + 1), '#');
        } else {
            assert forall|i: int, j: int|
                0 <= i < j < path.len() && path[i] == '#' && path[j] == '#' implies false by {
                assert(s[i] == '#' && s[j] == '#');
                assert(i >= at);
                assert(rest[j - at - 1] == s[j]);
            }
        }
    } else {
        assert forall|i: int, j: int|
            0 <= i < j < path.len() && path[i] == '#' && path[j] == '#' implies false by {
            assert(s[i] == '#');
        }
    }
}

/// A path with fewer than two `#` is its own key, lower-cased and otherwise
/// untouched.
pub proof fn law_other_paths_are_their_own_key(path: Seq<char>)
    requires
        !(exists|i: int, j: int|
            0 <= i < j < path.len() && path[i] == '#' && path[j] == '#'),
    ensures
        collection_key(path) == lower(path),
{
    law_recognized_paths_have_two_hashes(path);
}

/// A token of a lower-cased hardware id names a collection exactly if its first
/// three characters are `c`, `o` and `l`, whatever follows.
pub proof fn law_collection_tokens_start_with_col(token: Seq<char>, rest: Seq<char>)
    ensures
        is_collection_token(token) <==> token.len() >= 3 && token[0] == 'c' && token[1] == 'o'
            && token[2] == 'l',
        is_collection_token(seq!['c', 'o', 'l'] + rest),
{
    let col = seq!['c', 'o', 'l'];
    let long = col + rest;
    assert(long.subrange(0, 3) == col);
    if token.len() >= 3 {
        let head = token.subrange(0, 3);
        assert(head[0] == token[0] && head[1] == token[1] && head[2] == token[2]);
        if token[0] == 'c' && token[1] == 'o' && token[2] == 'l' {
            assert(head == col);
        }
        assert(col[0] == 'c' && col[1] == 'o' && col[2] == 'l');
    }
}

/// The segments of a path are what stands between its `#`.
proof fn lemma_segments_of(
    prefix: Seq<char>,
    hardware: Seq<char>,
    instance: Seq<char>,
    rest: Seq<char>,
)
    requires
        !prefix.contains('#'),
        !hardware.contains('#'),
        !instance.contains('#'),
        rest.len() == 0 || rest[0] == '#',
    ensures
        ({
            let path = prefix + seq!['#'] + hardware + seq!['#'] + instance + rest;
            &&& segments(path).len() >= 3
            &&& segments(path)[1] == lower(hardware)
            &&& segments(path)[2] == lower(instance)
        }),
{
    let path = prefix + seq!['#'] + hardware + seq!['#'] + instance + rest;
    law_free_of(prefix, '#');
    law_free_of(hardware, '#');
    law_free_of(instance, '#');
    lemma_lower_free(prefix, '#');
    lemma_lower_free(hardware, '#');
    lemma_lower_free(instance, '#');
    lemma_split_free(lower(prefix), '#');
    lemma_split_free(lower(hardware), '#');
    lemma_split_free(lower(instance), '#');
    let tail = if rest.len() == 0 {
        instance
    } else {
        instance.push('#') + rest.skip(1)
    };
    if rest.len() > 0 {
        let class = rest.skip(1);
        assert(rest == seq!['#'] + class);
        lemma_lower_concat(instance.push('#'), class);
        lemma_split_concat(lower(instance), lower(class), '#');
        law_join_split(lower(class), '#');
    }
    assert(split(lower(tail), '#').len() >= 1 && split(lower(tail), '#')[0] == lower(instance));
    assert(path == prefix.push('#') + (hardware.push('#') + tail));
    lemma_lower_concat(hardware.push('#'), tail);
    lemma_lower_concat(prefix.push('#'), hardware.push('#') + tail);
    lemma_split_concat(lower(hardware), lower(tail), '#');
    lemma_split_concat(lower(prefix), lower(hardware).push('#') + lower(tail), '#');
}

/// A filter that nothing fails keeps everything.
proof fn lemma_filter_keeps_all(tokens: Seq<Seq<char>>)
    requires
        forall|i: int| 0 <= i < tokens.len() ==> !is_collection_token(#[trigger] tokens[i]),
    ensures
        tokens.filter(|token: Seq<char>| !is_collection_token(token)) == tokens,
    decreases tokens.len(),
{
    reveal(Seq::filter);
    if tokens.len() > 0 {
        let head = tokens.drop_last();
        assert forall|i: int| 0 <= i < head.len() implies !is_collection_token(
            #[trigger] head[i],
        ) by {
            assert(head[i] == tokens[i]);
        }
        lemma_filter_keeps_all(head);
        assert(!is_collection_token(tokens[tokens.len() - 1]));
        assert(head.push(tokens.last()) == tokens);
    }
}

/// Every piece of a text stands in it, at its start or right after a separator.
proof fn lemma_piece_stands_in_text(s: Seq<char>, sep: char, k: int) -> (start: int)
    requires
        0 <= k < split(s, sep).len(),
    ensures
        0 <= start,
        start + split(s, sep)[k].len() <= s.len(),
        start == 0 || s[start - 1] == sep,
        forall|j: int|
            0 <= j < split(s, sep)[k].len() ==> #[trigger] split(s, sep)[k][j] == s[start + j],
    decreases s.len(),
{
    lemma_first_index(s, sep);
    let at = first_index(s, sep);
    if k == 0 || at >= s.len() {
        0
    } else {
        let rest = s.skip(at + 1);
        let inner = lemma_piece_stands_in_text(rest, sep, k - 1);
        assert(split(s, sep)[k] == split(rest, sep)[k - 1]);
        assert forall|j: int| 0 <= j < split(s, sep)[k].len() implies #[trigger] split(
            s,
            sep,
        )[k][j] == s[at + 1 + inner + j] by {
            assert(split(rest, sep)[k - 1][j] == rest[inner + j]);
        }
        if inner > 0 {
            assert(rest[inner - 1] == s[at + inner]);
        }
        at + 1 + inner
    }
}

/// A hardware id none of whose tokens starts with `col`, in any case, stays
/// whole, and so does an instance id up to its last `&`.
pub proof fn law_key_keeps_what_names_the_interface(
    prefix: Seq<char>,
    hardware: Seq<char>,
    instance: Seq<char>,
    index: Seq<char>,
    rest: Seq<char>,
)
    requires
        !prefix.contains('#'),
        !hardware.contains('#'),
        !instance.contains('#'),
        !index.contains('#'),
        !index.contains('&'),
        rest.len() == 0 || rest[0] == '#',
        forall|i: int|
            0 <= i && i + 2 < hardware.len() && (i == 0 || hardware[i - 1] == '&') ==> !({
                &&& #[trigger] hardware[i] == 'c' || hardware[i] == 'C'
                &&& hardware[i + 1] == 'o' || hardware[i + 1] == 'O'
                &&& hardware[i + 2] == 'l' || hardware[i + 2] == 'L'
            }),
    ensures
        collection_key(
            prefix + seq!['#'] + hardware + seq!['#'] + (instance + seq!['&'] + index) + rest,
        ) == lower(hardware) + seq!['#'] + lower(instance),
        collection_key(prefix + seq!['#'] + hardware + seq!['#'] + index + rest) == lower(hardware)
            + seq!['#'] + lower(index),
{
    let s = lower(hardware);
    let tokens = split(s, '&');
    law_lower_maps_ascii_capitals(hardware);
    assert forall|k: int| 0 <= k < tokens.len() implies !is_collection_token(
        #[trigger] tokens[k],
    ) by {
        law_collection_tokens_start_with_col(tokens[k], Seq::empty());
        if is_collection_token(tokens[k]) {
            let start = lemma_piece_stands_in_text(s, '&', k);
            assert(tokens[k][0] == s[start] && tokens[k][1] == s[start + 1] && tokens[k][2]
                == s[start + 2]);
            assert(hardware[start] == 'c' || hardware[start] == 'C');
            assert(hardware[start + 1] == 'o' || hardware[start + 1] == 'O');
            assert(hardware[start + 2] == 'l' || hardware[start + 2] == 'L');
            if start > 0 {
                assert(s[start - 1] == '&');
                assert(hardware[start - 1] == '&');
            }
        }
    }
    lemma_filter_keeps_all(tokens);
    law_join_split(s, '&');
    assert(s.push('#') == s + seq!['#']);

    let whole = instance + seq!['&'] + index;
    assert(!whole.contains('#')) by {
        assert forall|i: int| 0 <= i < whole.len() implies whole[i] != '#' by {
            if i < instance.len() {
                assert(instance.contains(instance[i]));
            } else if i > instance.len() {
                assert(index.contains(index[i - instance.len() - 1]));
            }
        }
    }
    lemma_segments_of(prefix, hardware, whole, rest);
    lemma_segments_of(prefix, hardware, index, rest);
    lemma_instance_parts(instance, index);
}

/// What is left of an instance id.
proof fn lemma_instance_parts(instance: Seq<char>, index: Seq<char>)
    requires
        !index.contains('&'),
    ensures
        before_last(lower(instance + seq!['&'] + index), '&') == lower(instance),
        before_last(lower(index), '&') == lower(index),
{
    law_free_of(index, '&');
    lemma_lower_free(index, '&');
    law_free_of(lower(index), '&');
    lemma_lower_concat(instance + seq!['&'], index);
    lemma_lower_concat(instance, seq!['&']);
    assert(lower(seq!['&']) =~= seq!['&']);
    law_before_last_cuts_at_the_last_separator(lower(instance), lower(index), '&');
}

/// A token that starts with `col`, in any case, leaves no trace in the key:
/// between two other parts of the hardware id, in front, at the end or alone.
pub proof fn law_collection_tokens_leave_no_trace(
    prefix: Seq<char>,
    before: Seq<char>,
    token: Seq<char>,
    after: Seq<char>,
    instance: Seq<char>,
    rest: Seq<char>,
)
    requires
        !prefix.contains('#'),
        !before.contains('#'),
        !token.contains('#'),
        !token.contains('&'),
        !after.contains('#'),
        !instance.contains('#'),
        rest.len() == 0 || rest[0] == '#',
        token.len() >= 3,
        token[0] == 'c' || token[0] == 'C',
        token[1] == 'o' || token[1] == 'O',
        token[2] == 'l' || token[2] == 'L',
    ensures
        collection_key(
            prefix + seq!['#'] + (before + seq!['&'] + token + seq!['&'] + after) + seq!['#']
                + instance + rest,
        ) == collection_key(
            prefix + seq!['#'] + (before + seq!['&'] + after) + seq!['#'] + instance + rest,
        ),
        collection_key(
            prefix + seq!['#'] + (token + seq!['&'] + after) + seq!['#'] + instance + rest,
        ) == collection_key(prefix + seq!['#'] + after + seq!['#'] + instance + rest),
        collection_key(
            prefix + seq!['#'] + (before + seq!['&'] + token) + seq!['#'] + instance + rest,
        ) == collection_key(prefix + seq!['#'] + before + seq!['#'] + instance + rest),
        collection_key(prefix + seq!['#'] + token + seq!['#'] + instance + rest) == collection_key(
            prefix + seq!['#'] + Seq::<char>::empty() + seq!['#'] + instance + rest,
        ),
{
    let pred = |t: Seq<char>| !is_collection_token(t);
    let both = before + seq!['&'] + token + seq!['&'] + after;
    let none = before + seq!['&'] + after;
    let front = token + seq!['&'] + after;
    let back = before + seq!['&'] + token;
    let empty = Seq::<char>::empty();
    assert(!(seq!['&'].contains('#')));
    lemma_concat_holds_no(before, seq!['&'], '#');
    lemma_concat_holds_no(before + seq!['&'], token, '#');
    lemma_concat_holds_no(back, seq!['&'], '#');
    lemma_concat_holds_no(back + seq!['&'], after, '#');
    lemma_concat_holds_no(before + seq!['&'], after, '#');
    lemma_concat_holds_no(token, seq!['&'], '#');
    lemma_concat_holds_no(token + seq!['&'], after, '#');
    assert(!empty.contains('#'));
    lemma_segments_of(prefix, both, instance, rest);
    lemma_segments_of(prefix, none, instance, rest);
    lemma_segments_of(prefix, front, instance, rest);
    lemma_segments_of(prefix, after, instance, rest);
    lemma_segments_of(prefix, back, instance, rest);
    lemma_segments_of(prefix, before, instance, rest);
    lemma_segments_of(prefix, token, instance, rest);
    lemma_segments_of(prefix, empty, instance, rest);

    let t = lower(token);
    law_free_of(token, '&');
    lemma_lower_free(token, '&');
    lemma_split_free(t, '&');
    law_lower_maps_ascii_capitals(token);
    law_collection_tokens_start_with_col(t, Seq::empty());
    assert(is_collection_token(t));
    assert(seq![t].filter(pred) == Seq::<Seq<char>>::empty()) by {
        reveal_with_fuel(Seq::filter, 2);
        assert(seq![t].drop_last() =~= Seq::<Seq<char>>::empty());
    }

    lemma_split_lower(before, after);
    lemma_split_lower(token, after);
    lemma_split_lower(before, token);
    lemma_split_lower(back, after);
    assert(back + seq!['&'] + after == both);
    Seq::filter_distributes_over_add(split(lower(before), '&'), split(lower(after), '&'), pred);
    Seq::filter_distributes_over_add(split(t, '&'), split(lower(after), '&'), pred);
    Seq::filter_distributes_over_add(split(lower(before), '&'), split(t, '&'), pred);
    Seq::filter_distributes_over_add(split(lower(back), '&'), split(lower(after), '&'), pred);
    let kept_before = split(lower(before), '&').filter(pred);
    let kept_after = split(lower(after), '&').filter(pred);
    assert(kept_before + Seq::<Seq<char>>::empty() =~= kept_before);
    assert(Seq::<Seq<char>>::empty() + kept_after =~= kept_after);

    assert(lower(empty) =~= empty);
    law_free_of(empty, '&');
    lemma_split_free(empty, '&');
    law_collection_tokens_start_with_col(empty, Seq::empty());
    lemma_filter_keeps_all(seq![empty]);
    assert(join(seq![empty], '&') == empty);
    assert(join(Seq::<Seq<char>>::empty(), '&') == empty);
}

/// Neither part holds a character, so neither does the whole.
proof fn lemma_concat_holds_no(a: Seq<char>, b: Seq<char>, c: char)
    requires
        !a.contains(c),
        !b.contains(c),
    ensures
        !(a + b).contains(c),
{
    assert forall|i: int| 0 <= i < (a + b).len() implies (a + b)[i] != c by {
        if i < a.len() {
            assert(a.contains(a[i]));
        } else {
            assert(b.contains(b[i - a.len()]));
        }
    }
}

/// The tokens of two parts of a hardware id.
proof fn lemma_split_lower(a: Seq<char>, b: Seq<char>)
    ensures
        split(lower(a + seq!['&'] + b), '&') == split(lower(a), '&') + split(lower(b), '&'),
{
    lemma_lower_concat(a + seq!['&'], b);
    lemma_lower_concat(a, seq!['&']);
    assert(lower(seq!['&']) =~= seq!['&']);
    assert(lower(a) + seq!['&'] == lower(a).push('&'));
    lemma_split_concat(lower(a), lower(b), '&');
}

/// Two paths that differ in one `Col..` token of the hardware id, in the index
/// that ends the instance id, in what stands before the hardware id and in what
/// follows the instance id have the same key. What stands around the token ends
/// and starts with `&`, or is empty.
pub proof fn law_sibling_paths_share_a_key(
    prefix: Seq<char>,
    other_prefix: Seq<char>,
    before: Seq<char>,
    number: Seq<char>,
    other_number: Seq<char>,
    after: Seq<char>,
    instance: Seq<char>,
    index: Seq<char>,
    other_index: Seq<char>,
    rest: Seq<char>,
    other_rest: Seq<char>,
)
    requires
        !prefix.contains('#'),
        !other_prefix.contains('#'),
        !before.contains('#'),
        !number.contains('#') && !number.contains('&'),
        !other_number.contains('#') && !other_number.contains('&'),
        !after.contains('#'),
        !instance.contains('#'),
        !index.contains('#') && !index.contains('&'),
        !other_index.contains('#') && !other_index.contains('&'),
        before.len() == 0 || before.last() == '&',
        after.len() == 0 || after[0] == '&',
        rest.len() == 0 || rest[0] == '#',
        other_rest.len() == 0 || other_rest[0] == '#',
    ensures
        collection_key(
            prefix + seq!['#'] + (before + seq!['C', 'o', 'l'] + number + after) + seq!['#'] + (
            instance + seq!['&'] + index) + rest,
        ) == collection_key(
            other_prefix + seq!['#'] + (before + seq!['C', 'o', 'l'] + other_number + after)
                + seq!['#'] + (instance + seq!['&'] + other_index) + other_rest,
        ),
        recognized(
            prefix + seq!['#'] + (before + seq!['C', 'o', 'l'] + number + after) + seq!['#'] + (
            instance + seq!['&'] + index) + rest,
        ),
{
    let col = seq!['C', 'o', 'l'];
    let whole = instance + seq!['&'] + index;
    let other_whole = instance + seq!['&'] + other_index;
    let hardware = before + col + number + after;
    let other_hardware = before + col + other_number + after;
    assert(!(seq!['&'].contains('#')));
    lemma_concat_holds_no(instance, seq!['&'], '#');
    lemma_concat_holds_no(instance + seq!['&'], index, '#');
    lemma_concat_holds_no(instance + seq!['&'], other_index, '#');
    assert(!col.contains('#') && !col.contains('&'));
    lemma_concat_holds_no(before, col, '#');
    lemma_concat_holds_no(before + col, number, '#');
    lemma_concat_holds_no(before + col, other_number, '#');
    lemma_concat_holds_no(before + col + number, after, '#');
    lemma_concat_holds_no(before + col + other_number, after, '#');
    lemma_segments_of(prefix, hardware, whole, rest);
    lemma_segments_of(other_prefix, other_hardware, other_whole, other_rest);
    lemma_segments_of(prefix, other_hardware, other_whole, rest);
    lemma_instance_parts(instance, index);
    lemma_instance_parts(instance, other_index);
    // Prefix, index and what follows do not show; the token is left.
    lemma_sibling_tokens(prefix, before, col + number, after, whole, rest);
    lemma_sibling_tokens(prefix, before, col + other_number, after, whole, rest);
    assert(before + (col + number) + after == hardware);
    assert(before + (col + other_number) + after == other_hardware);
    lemma_segments_of(prefix, other_hardware, whole, rest);
}

/// The hardware id that is left when the token between `before` and `after`, and
/// one of the `&` next to it, are taken out.
spec fn without_token(before: Seq<char>, after: Seq<char>) -> Seq<char> {
    if before.len() == 0 && after.len() == 0 {
        Seq::empty()
    } else if before.len() == 0 {
        after.skip(1)
    } else {
        before.drop_last() + after
    }
}

/// Taking a collection token out does not show in the key.
proof fn lemma_sibling_tokens(
    prefix: Seq<char>,
    before: Seq<char>,
    token: Seq<char>,
    after: Seq<char>,
    instance: Seq<char>,
    rest: Seq<char>,
)
    requires
        !prefix.contains('#'),
        !before.contains('#'),
        token.len() >= 3,
        token[0] == 'C' && token[1] == 'o' && token[2] == 'l',
        !token.subrange(3, token.len() as int).contains('#'),
        !token.subrange(3, token.len() as int).contains('&'),
        !after.contains('#'),
        !instance.contains('#'),
        before.len() == 0 || before.last() == '&',
        after.len() == 0 || after[0] == '&',
        rest.len() == 0 || rest[0] == '#',
    ensures
        collection_key(
            prefix + seq!['#'] + (before + token + after) + seq!['#'] + instance + rest,
        ) == collection_key(
            prefix + seq!['#'] + without_token(before, after) + seq!['#'] + instance + rest,
        ),
{
    let b = if before.len() == 0 {
        before
    } else {
        before.drop_last()
    };
    let a = if after.len() == 0 {
        after
    } else {
        after.skip(1)
    };
    let amp = seq!['&'];
    let tail = token.subrange(3, token.len() as int);
    assert forall|c: char| (c == '#' || c == '&') implies !(#[trigger] token.contains(c)) by {
        assert forall|i: int| 0 <= i < token.len() implies token[i] != c by {
            if i >= 3 {
                assert(tail.contains(tail[i - 3]));
            }
        }
    }
    assert(!b.contains('#')) by {
        assert forall|i: int| 0 <= i < b.len() implies b[i] != '#' by {
            assert(before.contains(before[i]));
        }
    }
    assert(!a.contains('#')) by {
        assert forall|i: int| 0 <= i < a.len() implies a[i] != '#' by {
            assert(after.contains(after[i + 1]));
        }
    }
    law_collection_tokens_leave_no_trace(prefix, b, token, a, instance, rest);
    assert(before.len() > 0 ==> before == b + amp);
    assert(after.len() > 0 ==> after == amp + a);
    if before.len() > 0 && after.len() > 0 {
        assert(before + token + after == b + amp + token + amp + a);
        assert(without_token(before, after) == b + amp + a);
    } else if before.len() > 0 {
        assert(before + token + after == b + amp + token);
        assert(without_token(before, after) == b);
    } else if after.len() > 0 {
        assert(before + token + after == token + amp + a);
    } else {
        assert(before + token + after == token);
    }
}

/// Where the instance ids of two paths differ before the last `&`, in more than
/// ASCII case, the keys differ, whatever the hardware ids are: two devices of the
/// same make stay apart.
pub proof fn law_other_instances_have_other_keys(
    prefix: Seq<char>,
    hardware: Seq<char>,
    instance: Seq<char>,
    index: Seq<char>,
    other_hardware: Seq<char>,
    other_instance: Seq<char>,
    other_index: Seq<char>,
    rest: Seq<char>,
)
    requires
        !prefix.contains('#'),
        !hardware.contains('#') && !other_hardware.contains('#'),
        !instance.contains('#') && !other_instance.contains('#'),
        !index.contains('#') && !index.contains('&'),
        !other_index.contains('#') && !other_index.contains('&'),
        rest.len() == 0 || rest[0] == '#',
        lower(instance) != lower(other_instance),
    ensures
        collection_key(
            prefix + seq!['#'] + hardware + seq!['#'] + (instance + seq!['&'] + index) + rest,
        ) != collection_key(
            prefix + seq!['#'] + other_hardware + seq!['#'] + (other_instance + seq!['&']
                + other_index) + rest,
        ),
{
    let whole = instance + seq!['&'] + index;
    let other_whole = other_instance + seq!['&'] + other_index;
    assert(!(seq!['&'].contains('#')));
    lemma_concat_holds_no(instance, seq!['&'], '#');
    lemma_concat_holds_no(instance + seq!['&'], index, '#');
    lemma_concat_holds_no(other_instance, seq!['&'], '#');
    lemma_concat_holds_no(other_instance + seq!['&'], other_index, '#');
    lemma_segments_of(prefix, hardware, whole, rest);
    lemma_segments_of(prefix, other_hardware, other_whole, rest);
    lemma_instance_parts(instance, index);
    lemma_instance_parts(other_instance, other_index);
    law_keys_tell_interfaces_apart(
        prefix + seq!['#'] + hardware + seq!['#'] + whole + rest,
        prefix + seq!['#'] + other_hardware + seq!['#'] + other_whole + rest,
    );
}

} // verus!
