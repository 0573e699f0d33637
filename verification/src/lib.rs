//! Market-data primitives and the incremental graph engine that folds them.
//!
//! The primitives: instants and windows of the clocks a reading crosses (`ts`), decimals that carry
//! their precision (`precision`, `money`, `decimal`), trades in columns and in batches (`cols`,
//! `batch`), the order book with the chunks, checkpoints and corrections it is folded from (`book`,
//! `chunk`, `shadow`, `ladder`), venues and symbols (`exchange`), an archive's rows (`feed`), and
//! prices gathered into periods (`klines`).
//!
//! The engine: cells and the frame they are pulled from (`cell`, `deps`, `node`, `emit`), retention
//! and levels (`rows`, `series`), gates and latches (`latch`), a sweep that can be observed down to an
//! exact Jacobian (`sweep`, `observe`, `level`, `kernel`, `close`, `fold`, `env`, `block`, `nudge`,
//! `engine`), and the shape of a graph as a value and as a picture (`shape`, `picture`).
//!
//! The algebra: one expression read as its value, its gradient, its symbolic derivative and its text
//! (`expr`, `algebra`, `ast`, `spell`), over the trees that model it (`tree`, `gradient`).
//!
//! The derivations: bars over trades and the index over bars (`bar`, `rsi`).
//!
//! Numbers are a [`scalar::Scalar`]: a machine float where the engine runs, [`whole::Whole`] where
//! its arithmetic has to be exact. A trait's specification methods say nothing unless an impl defines
//! them, so an impl outside of the verified code may leave them out.

pub mod algebra;
pub mod algebra_laws;
pub mod ast;
pub mod bar;
pub mod bar_laws;
pub mod batch;
pub mod block;
pub mod book;
pub mod book_laws;
pub mod book_node;
pub mod book_runs;
pub mod bump;
pub mod capture_laws;
pub mod cell;
pub mod cells;
pub mod chunk;
pub mod chunk_laws;
pub mod clock_laws;
pub mod close;
pub mod cols;
pub mod decimal;
pub mod delta;
pub mod dep_flat;
pub mod deps;
pub mod distribution;
pub mod emit;
pub mod engine;
pub mod env;
pub mod exchange;
pub mod expr;
pub mod fact_laws;
pub mod fd_laws;
pub mod feed;
pub mod flat;
pub mod fold;
pub mod glance;
pub mod gradient;
pub mod horizon;
pub mod instant;
pub mod jacobian_laws;
pub mod kernel;
pub mod kernel_laws;
pub mod kline_laws;
pub mod klines;
pub mod ladder;
pub mod lanes;
pub mod latch;
pub mod level;
pub mod manifest;
pub mod meaning_laws;
pub mod money;
pub mod moved;
pub mod node;
pub mod nudge;
pub mod nudge_cells;
pub mod observe;
pub mod operator_laws;
pub mod order;
pub mod picture;
pub mod picture_laws;
pub mod plot;
pub mod precision;
pub mod quote_laws;
pub mod retain;
pub mod rows;
pub mod rows_laws;
pub mod rsi;
pub mod rsi_laws;
pub mod scalar;
pub mod series;
pub mod shadow;
pub mod shape;
pub mod shape_laws;
pub mod side;
pub mod simple_laws;
pub mod slope_laws;
pub mod source_laws;
pub mod spell;
pub mod stamped;
pub mod spelling_laws;
pub mod sweep;
pub mod sweep_laws;
pub mod tag;
pub mod text;
pub mod text_laws;
pub mod tree;
pub mod ts;
pub mod usd;
pub mod view_laws;
pub mod want;
pub mod whole;
pub mod wilder_laws;

pub use algebra::{Ex, Slots, Vars};
pub use ast::Ast;
pub use bar::{closed_by, Bar, Bars, Ohlcs, Volume, Volumes};
pub use batch::{BatchTrades, InnerTrade};
pub use book::{Book, BookShape, BookUpdate};
pub use bump::Bump;
pub use cell::{Cell, Cons, Dark, Folding, Latent, Nil};
pub use cells::{BookAnchors, BookDeltas, Trades};
pub use chunk::BookChunk;
pub use close::Closes;
pub use cols::{RelayCols, TradeBuf, TradeCols};
pub use delta::{BookDelta, FrameKind};
pub use deps::DepSet;
pub use distribution::ProbabilisticDistribution;
pub use emit::{step_emit, Emit, Emitter};
pub use env::{Env, Source, Witness};
pub use exchange::{ExchangeName, Instrument, Symbol};
pub use expr::Expr;
pub use flat::{Flat, Unflat};
pub use fold::{Carried, Folds};
pub use glance::Glance;
pub use horizon::{Elems, Horizon, Over, Reach, Unbounded};
pub use klines::{mock_p_to_ohlc, p_to_ohlc, Kline};
pub use latch::{Armed, Episode, Gate, Gating, Latch};
pub use level::{Decides, Symbolic};
pub use money::{pi32, pu32, Price, Qty};
pub use moved::Moved;
pub use node::{step, Node};
pub use nudge::{Blind, Nudge, Runs};
pub use observe::{Fire, Observer, Sweep};
pub use plot::Plot;
pub use precision::{Precision, PrecisionPriceQty};
pub use retain::Batch;
pub use rows::{Hist, Lagged, Present, Rows, Tail};
pub use rsi::{rsi, wilder, AvgGain, AvgLoss, Rsi, RsiDelta, RsiSpec, RsiValues};
pub use series::{Buffer, Buffering, Latest, Sampling, Series};
pub use shadow::ShadowBook;
pub use shape::{Fidelity, Kind, NodeShape, Pin, Shape, Under};
pub use side::Side;
pub use stamped::Stamped;
pub use sweep::{observe_root, step_emit_obs, step_obs, step_when_obs};
pub use tag::Tag;
pub use ts::{
    offset, to_local, Accumulator, Aggregate, Arrival, Bounded, Exact, External, Leg, Local, Offset,
    Outbound, Relay, RoundTrip, Span, Timestamped, Timestamps, Ts, Vendor, Venue, Wire,
};
pub use usd::Usd;
pub use want::Want;
