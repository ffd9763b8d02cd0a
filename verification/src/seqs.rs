//! Splitting and searching of sequences, as mathematical functions.

use vstd::prelude::*;

verus! {

/// The index of the first `x` in `s`, or the length of `s` where there is none.
pub open spec fn position<T>(s: Seq<T>, x: T) -> nat
    decreases s.len(),
{
    if s.len() == 0 || s[0] == x {
        0
    } else {
        1 + position(s.drop_first(), x)
    }
}

/// The pieces of `s` between the occurrences of `sep`; always at least one piece.
pub open spec fn split<T>(s: Seq<T>, sep: T) -> Seq<Seq<T>>
    decreases s.len(),
{
    let p = position(s, sep);
    if p >= s.len() {
        seq![s]
    } else {
        seq![s.take(p as int)] + split(s.skip(p as int + 1), sep)
    }
}

/// What stands before and after the first `sep` in `s`, if there is one.
pub open spec fn split_once<T>(s: Seq<T>, sep: T) -> Option<(Seq<T>, Seq<T>)> {
    let p = position(s, sep);
    if p >= s.len() {
        None
    } else {
        Some((s.take(p as int), s.skip(p as int + 1)))
    }
}

/// `position` is the first index that holds `x`.
pub proof fn lemma_position<T>(s: Seq<T>, x: T)
    ensures
        position(s, x) <= s.len(),
        position(s, x) < s.len() ==> s[position(s, x) as int] == x,
        forall|i: int| 0 <= i < position(s, x) ==> s[i] != x,
    decreases s.len(),
{
    if s.len() == 0 || s[0] == x {
    } else {
        lemma_position(s.drop_first(), x);
        assert forall|i: int| 0 <= i < position(s, x) implies s[i] != x by {
            if i > 0 {
                assert(s[i] == s.drop_first()[i - 1]);
            }
        }
    }
}

/// Any index with the defining properties of `position` is `position`.
pub proof fn lemma_position_is<T>(s: Seq<T>, x: T, p: int)
    requires
        0 <= p <= s.len(),
        p < s.len() ==> s[p] == x,
        forall|i: int| 0 <= i < p ==> s[i] != x,
    ensures
        position(s, x) == p,
{
    lemma_position(s, x);
}

/// The pieces in `pieces` that are neither empty nor a single `dot`.
pub open spec fn named<T>(pieces: Seq<Seq<T>>, dot: T) -> Seq<Seq<T>>
    decreases pieces.len(),
{
    if pieces.len() == 0 {
        seq![]
    } else if pieces.last().len() == 0 || pieces.last() == seq![dot] {
        named(pieces.drop_last(), dot)
    } else {
        named(pieces.drop_last(), dot).push(pieces.last())
    }
}

/// A separator splits a sequence into the pieces before and behind it.
pub proof fn lemma_split_at_separator<T>(a: Seq<T>, sep: T, b: Seq<T>)
    ensures
        split(a + seq![sep] + b, sep) == split(a, sep) + split(b, sep),
    decreases a.len(),
{
    let s = a + seq![sep] + b;
    let p = position(a, sep);
    lemma_position(a, sep);
    assert(s[a.len() as int] == sep);
    assert forall|i: int| 0 <= i < p implies s[i] != sep by {
        assert(s[i] == a[i]);
    }
    if p < a.len() {
        assert(s[p as int] == sep);
    }
    lemma_position_is(s, sep, p as int);
    assert(s.take(p as int) =~= a.take(p as int));
    if p < a.len() {
        assert(s.skip(p as int + 1) =~= a.skip(p as int + 1) + seq![sep] + b);
        lemma_split_at_separator(a.skip(p as int + 1), sep, b);
        assert(split(s, sep) =~= split(a, sep) + split(b, sep));
    } else {
        assert(s.skip(p as int + 1) =~= b);
        assert(a.take(p as int) =~= a);
        assert(split(s, sep) =~= split(a, sep) + split(b, sep));
    }
}

/// A sequence without separators is one piece.
pub proof fn lemma_split_plain<T>(s: Seq<T>, sep: T)
    requires
        !s.contains(sep),
    ensures
        split(s, sep) == seq![s],
{
    lemma_position(s, sep);
}

/// There is always a piece, no piece holds the separator, and the first piece is
/// the front of the sequence.
pub proof fn lemma_split_pieces<T>(s: Seq<T>, sep: T)
    ensures
        split(s, sep).len() > 0,
        forall|i: int| 0 <= i < split(s, sep).len() ==> !(#[trigger] split(s, sep)[i]).contains(sep),
        split(s, sep)[0] == s.take(position(s, sep) as int),
    decreases s.len(),
{
    lemma_position(s, sep);
    let p = position(s, sep) as int;
    if p < s.len() {
        lemma_split_pieces(s.skip(p + 1), sep);
        assert forall|i: int| 0 <= i < split(s, sep).len() implies !(#[trigger] split(
            s,
            sep,
        )[i]).contains(sep) by {
            if i > 0 {
                assert(split(s, sep)[i] == split(s.skip(p + 1), sep)[i - 1]);
            }
        }
    } else {
        assert(s.take(p) =~= s);
    }
}

/// `named` goes piece by piece.
pub proof fn lemma_named_concat<T>(a: Seq<Seq<T>>, b: Seq<Seq<T>>, dot: T)
    ensures
        named(a + b, dot) == named(a, dot) + named(b, dot),
    decreases b.len(),
{
    if b.len() == 0 {
        assert(a + b =~= a);
        assert(named(a, dot) + named(b, dot) =~= named(a, dot));
    } else {
        assert((a + b).drop_last() =~= a + b.drop_last());
        lemma_named_concat(a, b.drop_last(), dot);
        assert(named(a + b, dot) =~= named(a, dot) + named(b, dot));
    }
}

/// Every piece that `named` keeps is one of the pieces, not empty and not `dot`.
pub proof fn lemma_named_pieces<T>(pieces: Seq<Seq<T>>, dot: T)
    ensures
        forall|i: int|
            0 <= i < named(pieces, dot).len() ==> pieces.contains(#[trigger] named(pieces, dot)[i])
                && named(pieces, dot)[i].len() > 0 && named(pieces, dot)[i] != seq![dot],
    decreases pieces.len(),
{
    if pieces.len() > 0 {
        lemma_named_pieces(pieces.drop_last(), dot);
        assert forall|i: int| 0 <= i < named(pieces, dot).len() implies pieces.contains(
            #[trigger] named(pieces, dot)[i],
        ) && named(pieces, dot)[i].len() > 0 && named(pieces, dot)[i] != seq![dot] by {
            let kept = named(pieces.drop_last(), dot);
            if i < kept.len() {
                assert(named(pieces, dot)[i] == kept[i]);
                let j = choose|j: int|
                    0 <= j < pieces.drop_last().len() && pieces.drop_last()[j] == kept[i];
                assert(pieces[j] == kept[i]);
            } else {
                assert(pieces[pieces.len() - 1] == pieces.last());
            }
        }
    }
}

// ---------------------------------------------------------------------------
// Laws
// ---------------------------------------------------------------------------
/// A sequence is split once at the first separator, whatever follows it; one
/// without separators is not split.
pub proof fn law_split_once<T>(a: Seq<T>, sep: T, b: Seq<T>)
    requires
        forall|i: int| 0 <= i < a.len() ==> a[i] != sep,
    ensures
        split_once(a + seq![sep] + b, sep) == Some((a, b)),
        split_once(a, sep) is None,
{
    let s = a + seq![sep] + b;
    assert(s[a.len() as int] == sep);
    assert forall|i: int| 0 <= i < a.len() implies s[i] != sep by {
        assert(s[i] == a[i]);
    }
    lemma_position_is(s, sep, a.len() as int);
    lemma_position_is(a, sep, a.len() as int);
    assert(s.take(a.len() as int) =~= a);
    assert(s.skip(a.len() as int + 1) =~= b);
}

/// Splitting undoes joining: the pieces of `a`, a separator and `b` are those of `a`
/// and those of `b`, and what has no separator is its own one piece.
pub proof fn law_split_joins<T>(a: Seq<T>, sep: T, b: Seq<T>)
    ensures
        split(a + seq![sep] + b, sep) == split(a, sep) + split(b, sep),
        (forall|i: int| 0 <= i < a.len() ==> a[i] != sep) ==> split(a, sep) == seq![a],
{
    lemma_split_at_separator(a, sep, b);
    if forall|i: int| 0 <= i < a.len() ==> a[i] != sep {
        lemma_split_plain(a, sep);
    }
}

/// Of two lists of pieces in a row, the named ones are those of either; of one piece,
/// itself unless it is empty or a single `dot`.
pub proof fn law_named_pieces<T>(a: Seq<Seq<T>>, b: Seq<Seq<T>>, piece: Seq<T>, dot: T)
    ensures
        named(a + b, dot) == named(a, dot) + named(b, dot),
        named(seq![piece], dot) == (if piece.len() == 0 || (piece.len() == 1 && piece[0] == dot) {
            Seq::<Seq<T>>::empty()
        } else {
            seq![piece]
        }),
{
    lemma_named_concat(a, b, dot);
    let one = seq![piece];
    assert(one.drop_last() =~= seq![]);
    assert(named(one.drop_last(), dot) =~= seq![]);
    if piece.len() == 1 && piece[0] == dot {
        assert(piece =~= seq![dot]);
    }
    assert(named(one, dot) =~= (if piece.len() == 0 || (piece.len() == 1 && piece[0] == dot) {
        Seq::<Seq<T>>::empty()
    } else {
        seq![piece]
    }));
}

/// A sequence is one of the pieces of another exactly where it stands in it between
/// two separators or ends, without one inside.
pub proof fn law_pieces_stand_between_separators<T>(s: Seq<T>, sep: T, piece: Seq<T>)
    ensures
        split(s, sep).contains(piece) <==> !piece.contains(sep) && exists|a: Seq<T>, b: Seq<T>|
            s == #[trigger] (a + piece + b) && (a.len() == 0 || a.last() == sep) && (b.len() == 0
                || b[0] == sep),
{
    lemma_split_pieces(s, sep);
    let all = split(s, sep);
    if all.contains(piece) {
        let i = choose|i: int| 0 <= i < all.len() && all[i] == piece;
        let (a, b) = lemma_piece_stands(s, sep, i);
        assert(s == a + piece + b);
    }
    if !piece.contains(sep) && exists|a: Seq<T>, b: Seq<T>|
        s == #[trigger] (a + piece + b) && (a.len() == 0 || a.last() == sep) && (b.len() == 0
            || b[0] == sep) {
        let (a, b) = choose|a: Seq<T>, b: Seq<T>|
            s == #[trigger] (a + piece + b) && (a.len() == 0 || a.last() == sep) && (b.len() == 0
                || b[0] == sep);
        lemma_split_plain(piece, sep);
        let back = piece + b;
        if b.len() > 0 {
            let rest = b.drop_first();
            assert(back =~= piece + seq![sep] + rest);
            lemma_split_at_separator(piece, sep, rest);
        } else {
            assert(back =~= piece);
        }
        assert(split(back, sep)[0] == piece);
        if a.len() > 0 {
            let front = a.drop_last();
            assert(s =~= front + seq![sep] + back);
            lemma_split_at_separator(front, sep, back);
            assert(all[split(front, sep).len() as int] == piece);
        } else {
            assert(s =~= back);
        }
    }
}

/// Where a piece stands in what was split.
proof fn lemma_piece_stands<T>(s: Seq<T>, sep: T, i: int) -> (r: (Seq<T>, Seq<T>))
    requires
        0 <= i < split(s, sep).len(),
    ensures
        s == r.0 + split(s, sep)[i] + r.1,
        r.0.len() == 0 || r.0.last() == sep,
        r.1.len() == 0 || r.1[0] == sep,
    decreases s.len(),
{
    lemma_position(s, sep);
    let p = position(s, sep) as int;
    if p >= s.len() {
        assert(s.take(p) =~= s);
        assert(s =~= Seq::<T>::empty() + s + Seq::<T>::empty());
        (Seq::empty(), Seq::empty())
    } else if i == 0 {
        assert(split(s, sep)[0] == s.take(p));
        assert(s =~= Seq::<T>::empty() + s.take(p) + s.skip(p));
        (Seq::empty(), s.skip(p))
    } else {
        let rest = s.skip(p + 1);
        let (a, b) = lemma_piece_stands(rest, sep, i - 1);
        let front = s.take(p + 1) + a;
        assert(split(s, sep)[i] == split(rest, sep)[i - 1]);
        let piece = split(rest, sep)[i - 1];
        assert(s =~= s.take(p + 1) + rest);
        assert(s.take(p + 1) + (a + piece + b) =~= front + piece + b);
        assert(s.take(p + 1).last() == sep);
        (front, b)
    }
}

} // verus!
