//! Text handling shared by the parsers: splitting on a separator character,
//! building strings and decoding UTF-8.

use vstd::prelude::*;
use vstd::string::StringSliceAdditionalSpecFns;
use vstd::utf8::valid_utf8;

verus! {

/// The pieces of `text` between occurrences of `sep`, as `str::split` with a
/// one-character pattern yields them: always at least one piece, an empty
/// piece before a leading, after a trailing and between two adjacent separators.
pub open spec fn split_pieces(text: Seq<char>, sep: char) -> Seq<Seq<char>>
    decreases text.len(),
{
    if text.len() == 0 {
        seq![Seq::empty()]
    } else {
        let before = split_pieces(text.drop_last(), sep);
        if text.last() == sep {
            before.push(Seq::empty())
        } else {
            before.update(before.len() - 1, before.last().push(text.last()))
        }
    }
}

/// The pieces joined back together with `sep` between them.
pub open spec fn join_pieces(pieces: Seq<Seq<char>>, sep: char) -> Seq<char>
    decreases pieces.len(),
{
    if pieces.len() <= 1 {
        if pieces.len() == 0 {
            Seq::empty()
        } else {
            pieces[0]
        }
    } else {
        join_pieces(pieces.drop_last(), sep).push(sep) + pieces.last()
    }
}

/// Splitting always yields at least one piece.
pub proof fn lemma_split_pieces_len(text: Seq<char>, sep: char)
    ensures
        split_pieces(text, sep).len() >= 1,
    decreases text.len(),
{
    if text.len() > 0 {
        lemma_split_pieces_len(text.drop_last(), sep);
    }
}

/// Splitting text that has a separator after `before` gives the pieces of
/// `before` followed by the pieces of `after`.
pub proof fn lemma_split_pieces_concat(before: Seq<char>, after: Seq<char>, sep: char)
    ensures
        split_pieces(before.push(sep) + after, sep) == split_pieces(before, sep) + split_pieces(after, sep),
    decreases after.len(),
{
    let text = before.push(sep) + after;
    if after.len() == 0 {
        assert(text =~= before.push(sep));
        assert(text.drop_last() =~= before);
        assert(split_pieces(after, sep) =~= seq![Seq::<char>::empty()]);
        assert(split_pieces(text, sep) =~= split_pieces(before, sep) + split_pieces(after, sep));
    } else {
        lemma_split_pieces_concat(before, after.drop_last(), sep);
        lemma_split_pieces_len(after.drop_last(), sep);
        assert(text.drop_last() =~= before.push(sep) + after.drop_last());
        assert(text.last() == after.last());
        let head = split_pieces(before, sep);
        let tail = split_pieces(after.drop_last(), sep);
        if after.last() == sep {
            assert(split_pieces(text, sep) =~= (head + tail).push(Seq::empty()));
            assert((head + tail).push(Seq::<char>::empty()) =~= head + tail.push(Seq::empty()));
        } else {
            let joined = head + tail;
            assert(joined.last() == tail.last());
            assert(joined.update(joined.len() - 1, joined.last().push(after.last())) =~= head + tail.update(
                tail.len() - 1,
                tail.last().push(after.last()),
            ));
        }
    }
}

/// Splitting loses nothing and keeps no separator: no piece holds `sep`, and
/// joining the pieces with `sep` gives back the text.
pub proof fn lemma_split_join(text: Seq<char>, sep: char)
    ensures
        join_pieces(split_pieces(text, sep), sep) == text,
        forall|i: int, j: int|
            0 <= i < split_pieces(text, sep).len() && 0 <= j < split_pieces(text, sep)[i].len()
                ==> split_pieces(text, sep)[i][j] != sep,
    decreases text.len(),
{
    if text.len() > 0 {
        let before = split_pieces(text.drop_last(), sep);
        lemma_split_pieces_len(text.drop_last(), sep);
        lemma_split_join(text.drop_last(), sep);
        let pieces = split_pieces(text, sep);
        if text.last() == sep {
            assert(pieces.drop_last() =~= before);
            if before.len() == 1 {
                assert(join_pieces(before, sep) == before[0]);
            }
            assert(join_pieces(pieces, sep) =~= join_pieces(before, sep).push(sep) + Seq::<char>::empty());
            assert(text =~= text.drop_last().push(sep));
        } else {
            let n = before.len();
            assert(pieces.drop_last() =~= before.drop_last());
            if n == 1 {
                assert(join_pieces(pieces, sep) == pieces[0]);
                assert(pieces[0] =~= before[0].push(text.last()));
                assert(text =~= text.drop_last().push(text.last()));
            } else {
                assert(join_pieces(pieces, sep) == join_pieces(before.drop_last(), sep).push(sep) + before.last().push(text.last()));
                assert(join_pieces(before, sep) == join_pieces(before.drop_last(), sep).push(sep) + before.last());
                assert(join_pieces(pieces, sep) =~= join_pieces(before, sep).push(text.last()));
                assert(text =~= text.drop_last().push(text.last()));
            }
            assert forall|i: int, j: int|
                0 <= i < pieces.len() && 0 <= j < pieces[i].len() implies pieces[i][j] != sep by {
                if i == n - 1 && j == pieces[i].len() - 1 {
                    assert(pieces[i][j] == text.last());
                } else if i == n - 1 {
                    assert(pieces[i][j] == before[i][j]);
                }
            }
        }
    }
}

/// Appends `c` to `text` with `String::push`. Trusted: the contract claims, as
/// std documents, that the text afterwards is the old text followed by `c`.
#[verifier::external_body]
pub(crate) fn push_char(text: &mut String, c: char)
    ensures
        final(text)@ == old(text)@.push(c),
{
    text.push(c)
}

/// Reads `bytes` as UTF-8 text with `std::str::from_utf8`. Trusted: the contract
/// claims, as std documents, `None` exactly when the bytes are not valid UTF-8,
/// and otherwise a text whose UTF-8 encoding is those bytes.
#[verifier::external_body]
pub(crate) fn utf8_text(bytes: &[u8]) -> (text: Option<&str>)
    ensures
        text is Some <==> valid_utf8(bytes@),
        text matches Some(t) ==> t.spec_bytes() == bytes@,
{
    std::str::from_utf8(bytes).ok()
}

} // verus!
