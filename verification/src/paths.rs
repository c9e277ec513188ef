//! Paths of files, compared part by part as Unix systems read them.
use crate::scan::{split_at_separator, split_text};
use crate::text::same_text;
use crate::text_map::{
    lemma_text_less_irreflexive, lemma_text_less_total, lemma_text_less_transitive, text_before,
    text_less, texts,
};
use vstd::prelude::*;

verus! {

/// The pieces between slashes that count: no empty ones, and a dot only where
/// the path begins with it.
pub open spec fn counted_pieces(pieces: Seq<Seq<char>>) -> Seq<Seq<char>>
    decreases pieces.len(),
{
    if pieces.len() == 0 {
        seq![]
    } else {
        let earlier = counted_pieces(pieces.drop_last());
        let piece = pieces.last();
        if piece.len() == 0 || (piece == "."@ && pieces.len() > 1) {
            earlier
        } else {
            earlier.push(piece)
        }
    }
}

/// The parts of a path: the root, if the path begins with a slash, and the
/// pieces that count.
pub open spec fn path_parts(path: Seq<char>) -> Seq<Seq<char>> {
    (if path.len() > 0 && path[0] == '/' {
        seq!["/"@]
    } else {
        seq![]
    }) + counted_pieces(split_text(path, '/'))
}

/// Where a part stands among the kinds of parts: the root comes first, then the
/// same directory, the one above, and names.
pub open spec fn part_rank(part: Seq<char>) -> nat {
    if part == "/"@ {
        0
    } else if part == "."@ {
        1
    } else if part == ".."@ {
        2
    } else {
        3
    }
}

/// The order of parts: by their kind, and names as texts.
pub open spec fn part_less(left: Seq<char>, right: Seq<char>) -> bool {
    part_rank(left) < part_rank(right) || (part_rank(left) == 3 && part_rank(right) == 3
        && text_less(left, right))
}

/// The order of lists of parts: part by part, a prefix before what extends it.
pub open spec fn parts_less(left: Seq<Seq<char>>, right: Seq<Seq<char>>) -> bool
    decreases left.len(),
{
    if right.len() == 0 {
        false
    } else if left.len() == 0 {
        true
    } else if left[0] != right[0] {
        part_less(left[0], right[0])
    } else {
        parts_less(left.drop_first(), right.drop_first())
    }
}

/// The order of paths.
pub open spec fn path_less(left: Seq<char>, right: Seq<char>) -> bool {
    parts_less(path_parts(left), path_parts(right))
}

proof fn lemma_part_less_total(left: Seq<char>, right: Seq<char>)
    ensures
        part_less(left, right) || left == right || part_less(right, left),
{
    lemma_text_less_total(left, right);
}

proof fn lemma_part_less_strict(a: Seq<char>, b: Seq<char>, c: Seq<char>)
    ensures
        !part_less(a, a),
        part_less(a, b) && part_less(b, c) ==> part_less(a, c),
{
    lemma_text_less_irreflexive(a);
    if text_less(a, b) && text_less(b, c) {
        lemma_text_less_transitive(a, b, c);
    }
}

proof fn lemma_parts_less_irreflexive(parts: Seq<Seq<char>>)
    ensures
        !parts_less(parts, parts),
    decreases parts.len(),
{
    if parts.len() > 0 {
        lemma_parts_less_irreflexive(parts.drop_first());
    }
}

proof fn lemma_parts_less_transitive(a: Seq<Seq<char>>, b: Seq<Seq<char>>, c: Seq<Seq<char>>)
    requires
        parts_less(a, b),
        parts_less(b, c),
    ensures
        parts_less(a, c),
    decreases a.len(),
{
    if a.len() > 0 {
        lemma_part_less_strict(a[0], b[0], c[0]);
        if a[0] == b[0] && b[0] == c[0] {
            lemma_parts_less_transitive(a.drop_first(), b.drop_first(), c.drop_first());
        }
    }
}

proof fn lemma_parts_less_total(a: Seq<Seq<char>>, b: Seq<Seq<char>>)
    ensures
        parts_less(a, b) || a == b || parts_less(b, a),
    decreases a.len(),
{
    if a.len() == 0 || b.len() == 0 {
        assert(a.len() == 0 && b.len() == 0 ==> a =~= b);
    } else if a[0] == b[0] {
        lemma_parts_less_total(a.drop_first(), b.drop_first());
        if a.drop_first() == b.drop_first() {
            assert(a =~= seq![a[0]] + a.drop_first());
            assert(b =~= seq![b[0]] + b.drop_first());
        }
    } else {
        lemma_part_less_total(a[0], b[0]);
    }
}

/// Paths are ordered strictly, and two that neither comes before the other have
/// the same parts.
pub proof fn paths_are_ordered(a: Seq<char>, b: Seq<char>, c: Seq<char>)
    ensures
        !path_less(a, a),
        path_less(a, b) && path_less(b, c) ==> path_less(a, c),
        path_less(a, b) || path_parts(a) == path_parts(b) || path_less(b, a),
{
    lemma_parts_less_irreflexive(path_parts(a));
    lemma_parts_less_total(path_parts(a), path_parts(b));
    if path_less(a, b) && path_less(b, c) {
        lemma_parts_less_transitive(path_parts(a), path_parts(b), path_parts(c));
    }
}

fn rank_of(part: &str) -> (rank: u8)
    ensures
        rank == part_rank(part@),
{
    if same_text(part, "/") {
        0
    } else if same_text(part, ".") {
        1
    } else if same_text(part, "..") {
        2
    } else {
        3
    }
}

fn part_before(left: &str, right: &str) -> (before: bool)
    ensures
        before == part_less(left@, right@),
{
    let left_rank: u8 = rank_of(left);
    let right_rank: u8 = rank_of(right);
    left_rank < right_rank || (left_rank == 3 && right_rank == 3 && text_before(left, right))
}

/// Takes a path apart.
pub fn parts_of(path: &str) -> (parts: Vec<String>)
    ensures
        texts(parts@) == path_parts(path@),
{
    let pieces = split_at_separator(path, '/');
    let ghost expected = split_text(path@, '/');
    let mut parts: Vec<String> = Vec::new();
    if starts_at_root(path) {
        parts.push(String::from_str("/"));
    }
    let ghost root = texts(parts@);
    proof {
        assert(root =~= if path@.len() > 0 && path@[0] == '/' {
            seq!["/"@]
        } else {
            seq![]
        });
        assert(expected.take(0) =~= seq![]);
        assert(texts(parts@) =~= root + counted_pieces(expected.take(0)));
    }
    let mut index: usize = 0;
    while index < pieces.len()
        invariant
            index <= pieces@.len(),
            texts(pieces@) == expected,
            texts(parts@) == root + counted_pieces(expected.take(index as int)),
        decreases pieces.len() - index,
    {
        let ghost before = texts(parts@);
        let piece: &str = pieces[index].as_str();
        proof {
            assert(expected[index as int] == piece@);
            assert(expected.take(index + 1).drop_last() =~= expected.take(index as int));
        }
        if piece.unicode_len() > 0 && (index == 0 || !same_text(piece, ".")) {
            parts.push(piece.to_owned());
            proof {
                assert(texts(parts@) =~= before.push(piece@));
                assert(before.push(piece@) =~= root + counted_pieces(
                    expected.take(index as int),
                ).push(piece@));
            }
        }
        index = index + 1;
    }
    proof {
        assert(expected.take(index as int) =~= expected);
    }
    parts
}

fn starts_at_root(path: &str) -> (root: bool)
    ensures
        root == (path@.len() > 0 && path@[0] == '/'),
{
    path.unicode_len() > 0 && path.get_char(0) == '/'
}

/// Whether a path comes before another one.
pub fn path_before(left: &str, right: &str) -> (before: bool)
    ensures
        before == path_less(left@, right@),
{
    let left_parts = parts_of(left);
    let right_parts = parts_of(right);
    let ghost one = texts(left_parts@);
    let ghost two = texts(right_parts@);
    let mut index: usize = 0;
    proof {
        assert(one.skip(0) =~= one);
        assert(two.skip(0) =~= two);
    }
    while index < left_parts.len() && index < right_parts.len() && same_text(
        left_parts[index].as_str(),
        right_parts[index].as_str(),
    )
        invariant
            index <= left_parts@.len(),
            index <= right_parts@.len(),
            one == texts(left_parts@),
            two == texts(right_parts@),
            parts_less(one, two) == parts_less(one.skip(index as int), two.skip(index as int)),
        decreases left_parts.len() - index,
    {
        proof {
            assert(one[index as int] == left_parts@[index as int]@);
            assert(two[index as int] == right_parts@[index as int]@);
            assert(one.skip(index as int).drop_first() =~= one.skip(index + 1));
            assert(two.skip(index as int).drop_first() =~= two.skip(index + 1));
        }
        index = index + 1;
    }
    if index >= right_parts.len() {
        false
    } else if index >= left_parts.len() {
        true
    } else {
        proof {
            assert(one[index as int] == left_parts@[index as int]@);
            assert(two[index as int] == right_parts@[index as int]@);
        }
        part_before(left_parts[index].as_str(), right_parts[index].as_str())
    }
}

/// Which pieces of a path count: an empty one never does, and a dot only in front.
pub proof fn pieces_count_one_by_one(pieces: Seq<Seq<char>>, piece: Seq<char>)
    ensures
        counted_pieces(seq![]).len() == 0,
        piece.len() == 0 ==> counted_pieces(pieces.push(piece)) == counted_pieces(pieces),
        piece.len() == 1 && piece[0] == '.' && pieces.len() > 0 ==> counted_pieces(
            pieces.push(piece),
        ) == counted_pieces(pieces),
        piece.len() == 1 && piece[0] == '.' && pieces.len() == 0 ==> counted_pieces(
            pieces.push(piece),
        ) == seq![piece],
        piece.len() > 1 || (piece.len() == 1 && piece[0] != '.') ==> counted_pieces(
            pieces.push(piece),
        ) == counted_pieces(pieces).push(piece),
{
    reveal_strlit(".");
    assert("."@.len() == 1);
    assert(pieces.push(piece).drop_last() =~= pieces);
    if piece.len() == 1 && piece[0] == '.' {
        assert(piece =~= "."@);
        if pieces.len() == 0 {
            assert(counted_pieces(pieces).push(piece) =~= seq![piece]);
        }
    }
}

/// Paths are ordered by the first part in which they differ, and a path comes before
/// every longer one that begins with it.
pub proof fn paths_are_ordered_by_their_first_difference(
    left: Seq<char>,
    right: Seq<char>,
    place: int,
)
    requires
        0 <= place <= path_parts(left).len(),
        place < path_parts(right).len(),
        forall|i: int|
            0 <= i < place ==> #[trigger] path_parts(left)[i] == path_parts(right)[i],
        place < path_parts(left).len() ==> path_parts(left)[place] != path_parts(right)[place],
    ensures
        path_less(left, right) <==> place == path_parts(left).len() || part_less(
            path_parts(left)[place],
            path_parts(right)[place],
        ),
{
    lemma_parts_first_difference(path_parts(left), path_parts(right), place);
}

proof fn lemma_parts_first_difference(left: Seq<Seq<char>>, right: Seq<Seq<char>>, place: int)
    requires
        0 <= place <= left.len(),
        place < right.len(),
        forall|i: int| 0 <= i < place ==> #[trigger] left[i] == right[i],
        place < left.len() ==> left[place] != right[place],
    ensures
        parts_less(left, right) <==> place == left.len() || part_less(left[place], right[place]),
    decreases place,
{
    if place > 0 {
        let rest = left.drop_first();
        let other = right.drop_first();
        assert(left[0] == right[0]);
        assert forall|i: int| 0 <= i < place - 1 implies #[trigger] rest[i] == other[i] by {
            assert(left[i + 1] == right[i + 1]);
        }
        lemma_parts_first_difference(rest, other, place - 1);
    }
}

} // verus!
