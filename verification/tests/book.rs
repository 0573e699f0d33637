//! The book: what our reconciliation of a venue's stream emits, and what a fold that slept or missed a
//! frame lands on.

use trading_data::book::{Book, BookShape, BookUpdate};
use trading_data::chunk::BookChunk;
use trading_data::delta::{BookDelta, FrameKind};
use trading_data::horizon::{Horizon, Timeframe};
use trading_data::precision::{Precision, PrecisionPriceQty};
use trading_data::retain::Batch;
use trading_data::shadow::ShadowBook;
use trading_data::side::Side;
use trading_data::ts::{Aggregate, Exact, Local, Span, Ts, Venue};

/// The engine's side of a step: the frame's buffer folds the run into its chunk, then the node
/// reads it.
fn step(b: &mut Book, chunk: &mut BookChunk, anchor: Option<&BookShape>, rows: &[BookDelta]) -> bool {
    chunk.advance(rows, Horizon::Over(Timeframe(900_000)));
    b.step(anchor, chunk)
}

fn prec() -> PrecisionPriceQty {
    PrecisionPriceQty::new(Precision(2), Precision(3))
}

fn cadence() -> Exact {
    Exact::from_nanos(60_000_000_000)
}

fn shape(bids: &[(i32, u32)], asks: &[(i32, u32)], ns: i64) -> BookShape {
    BookShape {
        ts: Aggregate {
            venue_exec: Span::at(Ts::<Venue>::from_nanos(ns)),
            local_recv: Span::at(Ts::<Local>::from_nanos(ns)),
        },
        prec: prec(),
        bids: bids.iter().copied().collect(),
        asks: asks.iter().copied().collect(),
    }
}

fn delta(bids: &[(i32, u32)], asks: &[(i32, u32)], ns: i64, gapped: bool) -> BookUpdate {
    BookUpdate::BatchDelta { shape: shape(bids, asks, ns), gapped }
}

fn local(ns: i64) -> Ts<Local> {
    Ts::from_nanos(ns)
}

fn row(seq: u64, kind: FrameKind, side: Side, price: i32, qty: u32) -> BookDelta {
    BookDelta {
        prec: prec(),
        ts_venue_exec: Ts::from_nanos(0),
        ts_local_recv: Ts::from_nanos(0),
        monotonic_seq: seq,
        kind,
        side,
        price,
        qty,
    }
}

fn record(sb: &mut ShadowBook, u: &BookUpdate, recv: Ts<Local>, tape: &mut Vec<Vec<BookDelta>>) {
    if let Some(f) = sb.ingest(u, recv) {
        tape.push(f.to_vec());
    }
}

/// The whole point of the layer: the emitted stream is our reconciliation, and folding it from
/// one of our own checkpoints reproduces the venue's state exactly.
#[test]
fn corrections_are_emitted_and_the_emitted_stream_replays_exactly() {
    let mut sb = ShadowBook::new(prec(), cadence());
    let mut tape = Vec::new();

    // seed, then ordinary deltas
    record(&mut sb, &BookUpdate::Snapshot(shape(&[(100, 5)], &[(101, 5)], 1)), local(1), &mut tape);
    record(&mut sb, &delta(&[(99, 3)], &[], 2, false), local(2), &mut tape);
    record(&mut sb, &delta(&[], &[(102, 7)], 3, false), local(3), &mut tape);

    let checkpoint = sb.checkpoint(local(3)).expect("first checkpoint is due immediately");
    let from = tape.len();

    // a gapped delta, then a snapshot that disagrees, then more deltas
    record(&mut sb, &delta(&[(98, 1)], &[], 4, true), local(4), &mut tape);
    record(&mut sb, &BookUpdate::Snapshot(shape(&[(100, 5), (99, 9)], &[(101, 5), (102, 7)], 5)), local(5), &mut tape);
    record(&mut sb, &delta(&[(97, 2)], &[], 6, false), local(6), &mut tape);

    assert_eq!(
        tape.iter().map(|f| f[0].kind).collect::<Vec<_>>(),
        [FrameKind::Update, FrameKind::Update, FrameKind::Correction, FrameKind::Correction, FrameKind::Update],
        "a gap and a snapshot disagreement must each surface as a Correction"
    );
    let level = |b: &Book, p: i32| b.bids().iter().find(|l| l.0 == p).map(|l| l.1);
    assert_eq!(level(sb.book(), 98), None, "the correction must have dropped the gapped level the snapshot denies");
    assert_eq!(level(sb.book(), 99), Some(9), "the correction must have carried the snapshot's own value");

    let agreeing = BookUpdate::Snapshot(sb.book().shape(local(7), local(1)));
    assert!(sb.ingest(&agreeing, local(7)).is_none(), "an agreeing snapshot emits nothing");

    // replay: fold the emitted stream from our checkpoint and land on the same book
    let mut replayed = Book::default();
    let mut chunk = BookChunk::default();
    for (i, levels) in tape[from..].iter().enumerate() {
        let anchor = (i == 0).then_some(&checkpoint);
        assert!(step(&mut replayed, &mut chunk, anchor, levels), "replay must stay synced");
    }
    assert_eq!(replayed.bids(), sb.book().bids());
    assert_eq!(replayed.asks(), sb.book().asks());
}

/// The whole of what an anchored node's sleep is worth: whichever resume it takes, it arrives at
/// the book it would have folded to, and does not announce itself as a different one.
#[test]
fn a_rewind_lands_where_the_fold_would_have_and_calls_it_the_same_book() {
    let seed = shape(&[(100, 5)], &[(101, 5)], 1);
    let rows = [
        row(1, FrameKind::Update, Side::Buy, 99, 3),
        row(2, FrameKind::Update, Side::Sell, 102, 4),
        row(3, FrameKind::Update, Side::Buy, 100, 0),
        row(4, FrameKind::Update, Side::Sell, 101, 9),
        row(5, FrameKind::Correction, Side::Buy, 99, 7),
        row(6, FrameKind::Update, Side::Sell, 102, 0),
    ];

    let mut awake = Book::default();
    assert!(step(&mut awake, &mut BookChunk::default(), Some(&seed), &rows));

    // a checkpoint of the book at seq 4: the anchor resume overshoots it on purpose, so the test
    // says that re-folding rows the checkpoint already holds is free rather than merely untried.
    let mut at4 = Book::default();
    assert!(step(&mut at4, &mut BookChunk::default(), Some(&seed), &rows[..4]));
    let checkpoint = at4.shape(local(0), local(0));

    for anchor in [None, Some(&checkpoint)] {
        let mut slept = Book::default();
        assert!(step(&mut slept, &mut BookChunk::default(), Some(&seed), &rows[..2]));
        let epoch = slept.epoch();

        slept.rewind(anchor, &rows[2..]);
        assert_eq!((slept.bids(), slept.asks()), (awake.bids(), awake.asks()));
        assert_eq!(slept.seq(), awake.seq(), "a rewound book stands where the awake one stands");
        assert_eq!(slept.epoch(), epoch, "a rewind reconstructs a book, it does not replace one");
    }
}

#[test]
fn a_missed_frame_desyncs_until_the_next_checkpoint() {
    let mut b = Book::default();
    let anchor = shape(&[(100, 5)], &[(101, 5)], 1);
    let mut chunk = BookChunk::default();

    assert!(step(&mut b, &mut chunk, Some(&anchor), &[row(1, FrameKind::Update, Side::Buy, 99, 3)]));

    // seq 2 never reached us
    let gapped = [row(3, FrameKind::Update, Side::Buy, 98, 1)];
    assert!(!step(&mut b, &mut chunk, None, &gapped), "a seq discontinuity must desync");
    assert!(!b.bids().iter().any(|l| l.0 == 98), "a desynced book must not fold");

    // the next checkpoint re-arms it, from the checkpoint's state, not the stale one
    let epoch = b.epoch();
    assert!(step(&mut b, &mut chunk, Some(&anchor), &[]));
    assert_eq!(b.epoch(), epoch + 1);
    assert!(!b.bids().iter().any(|l| l.0 == 99), "re-sync must not carry stale levels");
}

fn held(sb: &ShadowBook) -> (Vec<(i32, u32)>, Vec<(i32, u32)>) {
    (sb.book().bids().to_vec(), sb.book().asks().to_vec())
}

/// Quantity zero in a delta removes a level, so an epoch that a delta opens never starts from one.
#[test]
fn a_delta_opens_an_epoch_without_what_it_removes() {
    let mut sb = ShadowBook::new(prec(), cadence());
    assert!(sb.ingest(&delta(&[(100, 0)], &[(101, 5)], 1, false), local(1)).is_none());
    assert_eq!(held(&sb), (vec![], vec![(101, 5)]));
    let mut sb = ShadowBook::new(prec(), cadence());
    sb.ingest(&delta(&[(99, 2), (100, 0), (98, 1)], &[(101, 0), (102, 4)], 1, true), local(1));
    assert_eq!(held(&sb), (vec![(99, 2), (98, 1)], vec![(102, 4)]));
}

/// A delta is an event where any level of it changes the book, and then all of it is emitted.
#[test]
fn a_delta_that_tells_nothing_new_is_no_event() {
    let mut sb = ShadowBook::new(prec(), cadence());
    sb.ingest(&BookUpdate::Snapshot(shape(&[(100, 5)], &[(101, 5)], 1)), local(1));
    assert!(sb.ingest(&delta(&[(100, 5)], &[], 2, false), local(2)).is_none(), "restated");
    assert!(sb.ingest(&delta(&[(99, 0)], &[(102, 0)], 3, false), local(3)).is_none(), "not there to remove");
    assert!(sb.ingest(&delta(&[], &[], 4, true), local(4)).is_none(), "empty");
    assert_eq!(held(&sb), (vec![(100, 5)], vec![(101, 5)]));

    let rows = sb.ingest(&delta(&[(99, 1), (100, 5)], &[(101, 0), (102, 0)], 5, false), local(5));
    let rows = rows.expect("two of these are news").to_vec();
    assert_eq!(rows.iter().map(|r| (r.side, r.price, r.qty)).collect::<Vec<_>>(), [
        (Side::Buy, 99, 1),
        (Side::Buy, 100, 5),
        (Side::Sell, 101, 0),
        (Side::Sell, 102, 0)
    ]);
    assert_eq!(rows.iter().map(|r| r.monotonic_seq).collect::<Vec<_>>(), [1, 2, 3, 4]);
    assert_eq!(held(&sb), (vec![(100, 5), (99, 1)], vec![]));
}

/// However a period's rows are cut, the book ends at the same place and the same levels.
#[test]
fn a_book_tells_its_place() {
    let mut b = Book::default();
    let mut chunk = BookChunk::default();
    assert_eq!(b.seq(), None, "nothing folded yet");
    let anchor = shape(&[(100, 5)], &[(101, 5)], 0);
    assert!(step(&mut b, &mut chunk, Some(&anchor), &[]));
    assert_eq!(b.seq(), None, "a checkpoint and no row since");
    assert!(step(&mut b, &mut chunk, Some(&anchor), &[row(1, FrameKind::Update, Side::Buy, 99, 3)]));
    assert_eq!(b.seq(), Some(1));
    assert!(step(&mut b, &mut chunk, None, &[]));
    assert_eq!(b.seq(), Some(1), "a silent tick folds nothing");
    assert!(!step(&mut b, &mut chunk, None, &[row(7, FrameKind::Update, Side::Buy, 98, 3)]));
    assert_eq!(b.seq(), None, "the last step left it unreadable");
    assert!(step(&mut b, &mut chunk, Some(&anchor), &[row(8, FrameKind::Update, Side::Buy, 97, 3)]));
    assert_eq!(b.seq(), Some(8));
}
