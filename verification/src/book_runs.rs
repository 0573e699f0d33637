//! What holds of a book over every run of calls.

use vstd::prelude::*;

use crate::book::{folded, BookShape, BookView, Reach};
use crate::chunk::ChunkView;
use crate::delta::BookDelta;
use crate::side::Side;

verus! {

/// A call that folds a book forward.
pub enum Call {
    /// [`Book::step`](crate::book::Book::step) with the checkpoint at hand, over a chunk.
    Step(Option<BookShape>, ChunkView),
    /// [`Book::rewind`](crate::book::Book::rewind) from a checkpoint or from where the book stands.
    Rewind(Option<BookShape>, Seq<BookDelta>),
}

/// The number of the newest of some rows.
pub open spec fn newest_row(rows: Seq<BookDelta>) -> Option<int> {
    if rows.len() == 0 {
        None
    } else {
        Some(rows.last().monotonic_seq as int)
    }
}

/// The number of the newest row a chunk's period holds.
pub open spec fn newest_net(chunk: ChunkView) -> Option<int> {
    match chunk.seq {
        Some(seq) => Some(seq.1),
        None => None,
    }
}

impl Call {
    /// Whether the book can take the call.
    pub open spec fn fits(self, book: BookView) -> bool {
        match self {
            Call::Step(anchor, chunk) => book.can_step(anchor, chunk),
            Call::Rewind(anchor, rows) => book.can_rewind(anchor, rows),
        }
    }

    /// The book after the call.
    pub open spec fn after(self, book: BookView) -> BookView {
        match self {
            Call::Step(anchor, chunk) => book.step(anchor, chunk),
            Call::Rewind(anchor, rows) => book.rewind(anchor, rows),
        }
    }

    /// The checkpoint the call rebuilds the book from: a step takes one only where the book has no
    /// place in the stream.
    pub open spec fn checkpoint(self, book: BookView) -> Option<BookShape> {
        match self {
            Call::Step(anchor, chunk) => if book.synced && !(book.reach(chunk) is Gone) {
                None
            } else {
                anchor
            },
            Call::Rewind(anchor, rows) => anchor,
        }
    }

    /// The number of the newest row the call folds.
    pub open spec fn newest(self, book: BookView) -> Option<int> {
        match self {
            Call::Step(anchor, chunk) => if book.synced && book.reach(chunk) is Fresh {
                newest_row(chunk.fresh)
            } else if book.synced && book.reach(chunk) is Net {
                newest_net(chunk)
            } else if anchor is None {
                None
            } else if chunk.contiguous {
                newest_net(chunk)
            } else {
                newest_row(chunk.fresh)
            },
            Call::Rewind(anchor, rows) => newest_row(rows),
        }
    }
}

/// The book after a run of calls.
pub open spec fn ran(book: BookView, calls: Seq<Call>) -> BookView
    decreases calls.len(),
{
    if calls.len() == 0 {
        book
    } else {
        calls.last().after(ran(book, calls.drop_last()))
    }
}

/// Whether every call of a run can be taken where it comes.
pub open spec fn all_fit(book: BookView, calls: Seq<Call>) -> bool
    decreases calls.len(),
{
    calls.len() == 0 || {
        &&& all_fit(book, calls.drop_last())
        &&& calls.last().fits(ran(book, calls.drop_last()))
    }
}

/// The place in the chain a run of calls leaves a book at, told from the calls: none where the last
/// of them left the book unreadable, or where no row was folded, ever or since the last checkpoint;
/// and the newest row folded otherwise.
pub open spec fn place(book: BookView, calls: Seq<Call>) -> Option<int>
    decreases calls.len(),
{
    if calls.len() == 0 {
        None
    } else {
        let before = ran(book, calls.drop_last());
        let call = calls.last();
        if !call.after(before).synced {
            None
        } else if call.newest(before) is Some {
            call.newest(before)
        } else if call.checkpoint(before) is Some {
            None
        } else {
            place(book, calls.drop_last())
        }
    }
}

/// A book that nothing was folded into yet tells its place over every run of calls: the number of
/// the newest row it reflects, and none where it has no place in the chain.
pub proof fn a_book_tells_its_place(book: BookView, calls: Seq<Call>)
    requires
        !book.synced,
        all_fit(book, calls),
    ensures
        ran(book, calls).resume_seq() == place(book, calls),
    decreases calls.len(),
{
    if calls.len() > 0 {
        let rest = calls.drop_last();
        a_book_tells_its_place(book, rest);
        let before = ran(book, rest);
        match calls.last() {
            Call::Step(anchor, chunk) => {
                if before.synced && before.reach(chunk) is Net {
                    assert(chunk.seq is Some);
                }
            },
            Call::Rewind(anchor, rows) => {},
        }
    }
}

/// The checkpoint a run of calls last rebuilt a book from.
pub open spec fn last_checkpoint(book: BookView, calls: Seq<Call>) -> Option<BookShape>
    decreases calls.len(),
{
    if calls.len() == 0 {
        None
    } else {
        let taken = calls.last().checkpoint(ran(book, calls.drop_last()));
        if taken is Some {
            taken
        } else {
            last_checkpoint(book, calls.drop_last())
        }
    }
}

/// Whether a level stands at quantity zero.
pub open spec fn stands_empty(m: Map<i32, u32>, price: i32) -> bool {
    m.contains_key(price) && m[price] == 0
}

proof fn lemma_folding_empties_nothing(m: Map<i32, u32>, rows: Seq<BookDelta>, side: Side, price: i32)
    ensures
        stands_empty(folded(m, rows, side), price) ==> stands_empty(m, price),
    decreases rows.len(),
{
    if rows.len() > 0 {
        lemma_folding_empties_nothing(m, rows.drop_last(), side, price);
    }
}

/// No level stands at quantity zero but where the last checkpoint held it so: over every run of calls
/// on a book that started without one, folding never leaves one.
pub proof fn no_empty_level_stands_but_a_checkpoint_s(
    book: BookView,
    calls: Seq<Call>,
    side: Side,
    price: i32,
)
    requires
        !stands_empty(book.side(side), price),
        stands_empty(ran(book, calls).side(side), price),
    ensures
        last_checkpoint(book, calls) matches Some(s) && stands_empty(
            match side {
                Side::Buy => s.bids@,
                Side::Sell => s.asks@,
            },
            price,
        ),
    decreases calls.len(),
{
    if calls.len() > 0 {
        let rest = calls.drop_last();
        let before = ran(book, rest);
        let from = match calls.last().checkpoint(before) {
            Some(s) => match side {
                Side::Buy => s.bids@,
                Side::Sell => s.asks@,
            },
            None => before.side(side),
        };
        let rows = match calls.last() {
            Call::Step(_, chunk) => chunk.fresh,
            Call::Rewind(_, rows) => rows,
        };
        lemma_folding_empties_nothing(from, rows, side, price);
        assert(stands_empty(from, price));
        if calls.last().checkpoint(before) is None {
            no_empty_level_stands_but_a_checkpoint_s(book, rest, side, price);
        }
    }
}

} // verus!
