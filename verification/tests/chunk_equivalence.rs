//! A period's *net* is its rows: a book seeded at the period base and handed the net lands exactly
//! where a book that folded every row lands, deletes and corrections and all.

use trading_data::book::{Book, BookShape};
use trading_data::chunk::BookChunk;
use trading_data::delta::{BookDelta, FrameKind};
use trading_data::horizon::{Horizon, Timeframe};
use trading_data::precision::{Precision, PrecisionPriceQty};
use trading_data::retain::Batch;
use trading_data::side::Side;
use trading_data::ts::{Aggregate, Local, Span, Ts, Venue};

const DEPTH: i32 = 40;

fn prec() -> PrecisionPriceQty {
    PrecisionPriceQty::new(Precision(2), Precision(4))
}

fn reach() -> Horizon {
    Horizon::Over(Timeframe(900_000))
}

fn anchor() -> BookShape {
    BookShape {
        ts: Aggregate {
            venue_exec: Span::at(Ts::<Venue>::from_nanos(0)),
            local_recv: Span::at(Ts::<Local>::from_nanos(0)),
        },
        prec: prec(),
        bids: (0..DEPTH).map(|p| (p, p as u32 + 1)).collect(),
        asks: (DEPTH..2 * DEPTH).map(|p| (p, p as u32 + 1)).collect(),
    }
}

/// A run inside one period: a quarter deletes, a tenth corrections, prices inside the seeded window
/// so the book hovers at its depth rather than draining.
fn run(seed: u64, n: usize) -> Vec<BookDelta> {
    let mut rng = seed;
    (0..n as u64)
        .map(|i| {
            rng = rng.wrapping_mul(6364136223846793005).wrapping_add(1442695040888963407);
            let r = rng >> 33;
            let (side, base) = if r & 1 == 0 { (Side::Buy, 0) } else { (Side::Sell, DEPTH) };
            BookDelta {
                prec: prec(),
                ts_venue_exec: Ts::from_nanos(i as i64 * 1_000),
                ts_local_recv: Ts::from_nanos(i as i64 * 1_000),
                monotonic_seq: i + 1,
                kind: if r % 10 == 0 { FrameKind::Correction } else { FrameKind::Update },
                side,
                price: base + (r >> 1) as i32 % DEPTH,
                qty: if r % 4 == 0 { 0 } else { (r >> 8) as u32 % 1000 + 1 },
            }
        })
        .collect()
}

fn levels(b: &Book) -> (Vec<(i32, u32)>, Vec<(i32, u32)>) {
    (b.bids().to_vec(), b.asks().to_vec())
}

#[test]
fn a_period_s_net_is_that_period_s_rows() {
    for (seed, n, tick) in [(1u64, 400usize, 1usize), (7, 400, 13), (99, 1_000, 7), (12345, 40, 40)] {
        let rows = run(seed, n);
        let anchor = anchor();

        // row by row, as an awake book folds: every step continuous, nothing ever rebuilt.
        let (mut folded, mut chunk) = (Book::default(), BookChunk::default());
        for batch in rows.chunks(tick) {
            chunk.advance(batch, reach());
            assert!(folded.step(Some(&anchor), &chunk), "the reference fold must stay synced");
        }

        // the whole run as one net, taken by a book that has no place in the chain at all
        let (mut woken, mut whole) = (Book::default(), BookChunk::default());
        whole.advance(&rows, reach());
        assert!(woken.step(Some(&anchor), &whole), "a seeded book must take the net");

        assert_eq!(levels(&folded), levels(&woken), "seed {seed}, {n} rows in batches of {tick}");
        assert!(whole.levels() <= 2 * DEPTH as usize, "the net is bounded by depth, not by the {n} rows it folded");
    }
}

/// The reason the wake path is bounded: what the chunk holds tracks the book's depth, not the
/// stream's length. A regression here is the design's failure mode, and it is silent.
#[test]
fn the_net_costs_depth_and_not_row_count() {
    let many: usize = 100_000;
    let mut chunk = BookChunk::default();
    chunk.advance(&run(4, many), reach());
    // one entry per price *touched*, and the run only ever touches the seeded window
    assert_eq!(chunk.levels(), 2 * DEPTH as usize, "{many} rows collapse onto the levels they touch");
}
