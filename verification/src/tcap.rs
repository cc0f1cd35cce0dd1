//! The names that a terminal capability query asks for.

use crate::text::{decode_hex, decode_lossy};
#[allow(unused_imports)]
use crate::text::{hex_bytes, hex_encoded, is_hex, lemma_hex_round_trip, text_of};
use vstd::prelude::*;

verus! {

/// The semicolon, which separates the pieces of a query.
pub const SEPARATOR: u8 = 0x3b;

/// The name that one piece of a query stands for: the text behind its
/// hexadecimal digits, or the piece itself where it is not made of them.
pub open spec fn capability_name(piece: Seq<u8>) -> Seq<char> {
    if is_hex(piece) {
        text_of(hex_bytes(piece))
    } else {
        text_of(piece)
    }
}

/// The characters of each string of a list.
pub open spec fn string_views(strings: Seq<String>) -> Seq<Seq<char>> {
    strings.map_values(|s: String| s@)
}

/// Collects the data of a terminal capability query.
#[derive(Debug, PartialEq)]
pub struct GetTcapBuilder {
    current: Vec<u8>,
    names: Vec<String>,
}

/// What a [`GetTcapBuilder`] has collected: the finished names, and the bytes
/// of the piece that is still open.
#[verifier::ext_equal]
pub ghost struct TcapView {
    pub current: Seq<u8>,
    pub names: Seq<Seq<char>>,
}

impl TcapView {
    /// Nothing collected.
    pub open spec fn empty() -> TcapView {
        TcapView { current: Seq::empty(), names: Seq::empty() }
    }

    /// The open piece is finished.
    pub open spec fn flush(self) -> TcapView {
        TcapView {
            current: Seq::empty(),
            names: self.names.push(capability_name(self.current)),
        }
    }

    /// All bytes of `query` are taken in.
    pub open spec fn push_all(self, query: Seq<u8>) -> TcapView
        decreases query.len(),
    {
        if query.len() == 0 {
            self
        } else {
            self.push_all(query.drop_last()).push(query.last())
        }
    }

    /// One byte more: a semicolon finishes the open piece, any other byte
    /// belongs to it.
    pub open spec fn push(self, data: u8) -> TcapView {
        if data == SEPARATOR {
            self.flush()
        } else {
            TcapView { current: self.current.push(data), names: self.names }
        }
    }
}

/// The pieces of a query, which semicolons separate.
pub open spec fn pieces(query: Seq<u8>) -> Seq<Seq<u8>>
    decreases query.len(),
{
    if query.len() == 0 {
        seq![Seq::empty()]
    } else {
        let before = pieces(query.drop_last());
        if query.last() == SEPARATOR {
            before.push(Seq::empty())
        } else {
            before.drop_last().push(before.last().push(query.last()))
        }
    }
}

/// Pieces, with a semicolon between one and the next.
pub open spec fn joined(pieces: Seq<Seq<u8>>) -> Seq<u8>
    decreases pieces.len(),
{
    if pieces.len() == 0 {
        Seq::empty()
    } else if pieces.len() == 1 {
        pieces[0]
    } else {
        joined(pieces.drop_last()).push(SEPARATOR) + pieces.last()
    }
}

/// The names that a query asks for: one for each of its pieces.
pub open spec fn names_of(query: Seq<u8>) -> Seq<Seq<char>> {
    pieces(query).map_values(|piece: Seq<u8>| capability_name(piece))
}

/// A query has a piece at least, none of its pieces holds a semicolon, and
/// they make up the query when joined by semicolons.
pub proof fn lemma_pieces(query: Seq<u8>)
    ensures
        pieces(query).len() > 0,
        forall|i: int|
            0 <= i < pieces(query).len() ==> !(#[trigger] pieces(query)[i]).contains(SEPARATOR),
        joined(pieces(query)) == query,
    decreases query.len(),
{
    if query.len() == 0 {
        assert(pieces(query)[0] == query);
    } else {
        let before = pieces(query.drop_last());
        let after = pieces(query);
        lemma_pieces(query.drop_last());
        if query.last() == SEPARATOR {
            assert(after.drop_last() == before);
            assert(joined(after) == query.drop_last().push(SEPARATOR) + Seq::<u8>::empty());
            assert(joined(after) == query);
            assert(!Seq::<u8>::empty().contains(SEPARATOR));
        } else {
            let last = before.last();
            assert(after.drop_last() == before.drop_last());
            assert forall|i: int| 0 <= i < after.len() implies !(#[trigger] after[i]).contains(
                SEPARATOR,
            ) by {
                assert(!before[i].contains(SEPARATOR));
                if i == after.len() - 1 {
                    assert forall|k: int| 0 <= k < after[i].len() implies after[i][k]
                        != SEPARATOR by {
                        if k < last.len() {
                            assert(last.contains(last[k]));
                        }
                    }
                }
            }
            if before.len() > 1 {
                let head = joined(before.drop_last()).push(SEPARATOR);
                assert(head + last.push(query.last()) == (head + last).push(query.last()));
            }
            assert(joined(after) == query.drop_last().push(query.last()));
            assert(joined(after) == query);
        }
    }
}

/// A name that is sent as the hexadecimal digits of its UTF-8 bytes comes out
/// as that name.
pub proof fn lemma_name_round_trip(name: Seq<char>)
    ensures
        capability_name(hex_encoded(vstd::utf8::encode_utf8(name))) == name,
{
    broadcast use {
        vstd::utf8::encode_utf8_valid_utf8,
        vstd::utf8::encode_utf8_decode_utf8,
    };

    lemma_hex_round_trip(vstd::utf8::encode_utf8(name));
}

/// Pushing the bytes of a query and finishing gives the names that it asks
/// for.
pub proof fn lemma_push_all(query: Seq<u8>)
    ensures
        TcapView::empty().push_all(query).flush().names == names_of(query),
        TcapView::empty().push_all(query).current == pieces(query).last(),
    decreases query.len(),
{
    let before = TcapView::empty().push_all(query.drop_last());
    lemma_pieces(query);
    if query.len() == 0 {
        assert(TcapView::empty().push_all(query).flush().names == names_of(query));
    } else {
        lemma_push_all(query.drop_last());
        lemma_pieces(query.drop_last());
        let after = TcapView::empty().push_all(query);
        if query.last() == SEPARATOR {
            assert(after.flush().names == names_of(query));
        } else {
            assert(before.flush().names.drop_last() == before.names);
            assert(after.flush().names == names_of(query));
        }
    }
}

impl View for GetTcapBuilder {
    type V = TcapView;

    closed spec fn view(&self) -> TcapView {
        TcapView { current: self.current@, names: string_views(self.names@) }
    }
}

impl Default for GetTcapBuilder {
    fn default() -> (builder: Self)
        ensures
            builder@ == TcapView::empty(),
    {
        GetTcapBuilder { current: Vec::new(), names: Vec::new() }
    }
}

impl GetTcapBuilder {
    fn flush(&mut self)
        ensures
            final(self)@ == old(self)@.flush(),
    {
        let decoded = match decode_hex(self.current.as_slice()) {
            Ok(bytes) => decode_lossy(bytes.as_slice()),
            Err(_) => decode_lossy(self.current.as_slice()),
        };
        self.names.push(decoded);
        self.current.clear();
    }

    /// Takes in one byte of the query.
    pub fn push(&mut self, data: u8)
        ensures
            final(self)@ == old(self)@.push(data),
    {
        if data == SEPARATOR {
            self.flush();
        } else {
            self.current.push(data);
        }
    }

    /// The names asked for, the last of which ends with the query.
    pub fn finish(self) -> (names: Vec<String>)
        ensures
            string_views(names@) == self@.flush().names,
    {
        let mut builder = self;
        builder.flush();
        builder.names
    }
}

/// One piece alone is what it is, and one piece more stands behind a semicolon.
pub proof fn lemma_joined(list: Seq<Seq<u8>>, piece: Seq<u8>)
    ensures
        joined(seq![piece]) == piece,
        list.len() > 0 ==> joined(list.push(piece)) == joined(list) + seq![0x3bu8] + piece,
{
    assert(list.push(piece).drop_last() == list);
    if list.len() > 0 {
        assert(joined(list).push(SEPARATOR) + piece == joined(list) + seq![0x3bu8] + piece);
    }
}

proof fn lemma_pieces_extend(query: Seq<u8>, piece: Seq<u8>)
    requires
        !piece.contains(0x3bu8),
    ensures
        pieces(query + piece) == pieces(query).drop_last().push(pieces(query).last() + piece),
    decreases piece.len(),
{
    lemma_pieces(query);
    if piece.len() == 0 {
        assert(query + piece == query);
        assert(pieces(query).last() + piece == pieces(query).last());
        assert(pieces(query).drop_last().push(pieces(query).last()) == pieces(query));
    } else {
        let shorter = piece.drop_last();
        assert forall|i: int| 0 <= i < shorter.len() implies shorter[i] != 0x3b by {
            assert(piece.contains(piece[i]));
        }
        assert(piece.contains(piece.last()));
        lemma_pieces_extend(query, shorter);
        assert((query + piece).drop_last() == query + shorter);
        assert((query + piece).last() == piece.last());
        let before = pieces(query + shorter);
        assert(before.drop_last() == pieces(query).drop_last());
        assert(before.last().push(piece.last()) == pieces(query).last() + piece);
    }
}

/// Pieces without semicolons that are joined by semicolons are found again.
pub proof fn lemma_pieces_of_joined(list: Seq<Seq<u8>>)
    requires
        list.len() > 0,
        forall|i: int| 0 <= i < list.len() ==> !(#[trigger] list[i]).contains(0x3bu8),
    ensures
        pieces(joined(list)) == list,
    decreases list.len(),
{
    let piece = list.last();
    assert(!list[list.len() - 1].contains(0x3bu8));
    if list.len() == 1 {
        lemma_pieces_extend(Seq::empty(), piece);
        assert(Seq::<u8>::empty() + piece == piece);
        assert(pieces(Seq::<u8>::empty()) == seq![Seq::<u8>::empty()]);
        assert(pieces(piece) == list);
    } else {
        let shorter = list.drop_last();
        assert forall|i: int| 0 <= i < shorter.len() implies !(#[trigger] shorter[i]).contains(
            0x3bu8,
        ) by {
            assert(!list[i].contains(0x3bu8));
        }
        lemma_pieces_of_joined(shorter);
        let query = joined(shorter).push(SEPARATOR);
        assert(query.drop_last() == joined(shorter));
        assert(pieces(query) == shorter.push(Seq::empty()));
        lemma_pieces_extend(query, piece);
        assert(pieces(query).last() + piece == piece);
        assert(pieces(query).drop_last() == shorter);
        assert(pieces(joined(list)) == list);
    }
}

/// There is one name for each piece of a query, in order, and each is that of
/// its piece: the text behind hexadecimal digits, and otherwise the text of the
/// piece.
pub proof fn lemma_names(query: Seq<u8>)
    ensures
        names_of(query).len() == pieces(query).len(),
        forall|i: int|
            0 <= i < pieces(query).len() ==> #[trigger] names_of(query)[i] == capability_name(
                pieces(query)[i],
            ),
        forall|piece: Seq<u8>|
            is_hex(piece) ==> #[trigger] capability_name(piece) == text_of(hex_bytes(piece)),
        forall|piece: Seq<u8>|
            !is_hex(piece) ==> #[trigger] capability_name(piece) == text_of(piece),
{
}

/// The query that asks for a list of names, by the hexadecimal digits of their
/// UTF-8 bytes and with semicolons between them, asks for that list.
pub proof fn lemma_query_round_trip(names: Seq<Seq<char>>)
    requires
        names.len() > 0,
    ensures
        names_of(
            joined(names.map_values(|name: Seq<char>| hex_encoded(vstd::utf8::encode_utf8(name)))),
        ) == names,
{
    let list = names.map_values(|name: Seq<char>| hex_encoded(vstd::utf8::encode_utf8(name)));
    assert forall|i: int| 0 <= i < list.len() implies !(#[trigger] list[i]).contains(0x3bu8) by {
        lemma_hex_round_trip(vstd::utf8::encode_utf8(names[i]));
        assert forall|k: int| 0 <= k < list[i].len() implies list[i][k] != 0x3b by {
            assert(crate::text::is_hex_digit(list[i][k]));
        }
    }
    lemma_pieces_of_joined(list);
    assert forall|i: int| 0 <= i < names.len() implies names_of(joined(list))[i] == names[i] by {
        lemma_name_round_trip(names[i]);
    }
    assert(names_of(joined(list)) == names);
}

/// A byte that is no semicolon is added to the open piece. A semicolon finishes
/// the open piece, as the end of the query does: its name comes behind those
/// that were finished before, whichever they are.
pub proof fn lemma_push(tcap: TcapView, query: Seq<u8>, data: u8)
    ensures
        tcap.flush().names == tcap.names.push(capability_name(tcap.current)),
        tcap.flush().current.len() == 0,
        tcap.push(0x3b) == tcap.flush(),
        data != 0x3b ==> tcap.push(data).current == tcap.current.push(data),
        data != 0x3b ==> tcap.push(data).names == tcap.names,
        tcap.push_all(Seq::empty()) == tcap,
        tcap.push_all(query.push(data)) == tcap.push_all(query).push(data),
        TcapView::empty().current.len() == 0,
        TcapView::empty().names.len() == 0,
{
    assert(query.push(data).drop_last() == query);
}

/// The characters of a list of strings are those of each of them, in order.
pub proof fn lemma_string_views(strings: Seq<String>)
    ensures
        string_views(strings).len() == strings.len(),
        forall|i: int|
            0 <= i < strings.len() ==> #[trigger] string_views(strings)[i] == strings[i]@,
{
}

} // verus!
