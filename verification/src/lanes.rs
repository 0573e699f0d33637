//! How the lanes and the book are read off a frame: as slots, and at a glance.

use vstd::prelude::*;

use crate::book::{ascending, Book, BookShape};
use crate::chunk::BookChunk;
use crate::cols::{scaled_down, TradeCols};
use crate::cols::unscaled;
use crate::decimal::{decimal_text, short_text, writable};
use crate::decimal::write_short;
use crate::delta::{BookDelta, FrameKind};
use crate::flat::{lemma_one_dim, one_dim};
use crate::flat::Flat;
use crate::flat::{last_fired, last_slots};
use crate::glance::Glance;
use crate::ladder;
use crate::ladder::listing;
use crate::precision::PrecisionPriceQty;
use crate::scalar::Scalar;
use crate::side::Side;
use crate::text;
use crate::text::decimal;

verus! {

/// A level as numbers.
impl<V: Scalar> Flat<V> for BookDelta {
    open spec fn len_spec() -> nat {
        2
    }

    open spec fn dims_spec() -> Seq<usize> {
        seq![2usize]
    }

    open spec fn sound(&self) -> bool {
        true
    }

    open spec fn slots(&self) -> Seq<V> {
        seq![
            unscaled::<V>(self.price as int, self.prec.price.0 as int),
            unscaled::<V>(self.qty as int, self.prec.qty.0 as int),
        ]
    }

    open spec fn fired(&self) -> bool {
        true
    }

    open spec fn count(&self) -> nat {
        1
    }

    proof fn fills(&self) {
    }

    proof fn shaped() {
        lemma_one_dim(2usize);
    }

    fn dims() -> (r: Vec<usize>) {
        one_dim(2usize)
    }

    fn len() -> (r: usize) {
        2
    }

    fn flat(&self, out: &mut [V]) -> (fired: bool) {
        let price: V = scaled_down(self.price as i64, self.prec.price.0);
        let qty: V = scaled_down(self.qty as i64, self.prec.qty.0);
        out[0] = price;
        out[1] = qty;
        assert(out@ =~= <Self as Flat<V>>::slots(self));
        true
    }

    fn fires(&self) -> (r: usize) {
        1
    }
}

/// Reads the tick's own levels only: retention adds no signal, so a buffer's fire is the series it
/// retains.
impl<'a, V: Scalar> Flat<V> for &'a BookChunk {
    open spec fn len_spec() -> nat {
        2
    }

    open spec fn dims_spec() -> Seq<usize> {
        seq![2usize]
    }

    open spec fn sound(&self) -> bool {
        true
    }

    open spec fn slots(&self) -> Seq<V> {
        last_slots(self@.fresh)
    }

    open spec fn fired(&self) -> bool {
        last_fired::<V, BookDelta>(self@.fresh)
    }

    open spec fn count(&self) -> nat {
        self@.fresh.len()
    }

    proof fn fills(&self) {
        V::none_is_absent();
    }

    proof fn shaped() {
        lemma_one_dim(2usize);
    }

    fn dims() -> (r: Vec<usize>) {
        one_dim(2usize)
    }

    fn len() -> (r: usize) {
        2
    }

    fn flat(&self, out: &mut [V]) -> (fired: bool) {
        self.fresh().flat(out)
    }

    fn fires(&self) -> (r: usize) {
        self.fresh().len()
    }
}

/// The top of one side of a book, as a number: none where the side is empty, since one-sided is not
/// unsynced.
pub open spec fn top_price<V: Scalar>(side: Side, levels: Map<i32, u32>, prec: PrecisionPriceQty) -> V {
    let s = listing(side, levels);
    if s.len() > 0 {
        unscaled(s[0].0 as int, prec.price.0 as int)
    } else {
        V::none()
    }
}

/// A checkpoint reads like the book it seeds.
impl<'a, V: Scalar> Flat<V> for &'a BookShape {
    open spec fn len_spec() -> nat {
        2
    }

    open spec fn dims_spec() -> Seq<usize> {
        seq![2usize]
    }

    open spec fn absentable() -> bool {
        true
    }

    open spec fn sound(&self) -> bool {
        true
    }

    open spec fn slots(&self) -> Seq<V> {
        seq![
            top_price::<V>(Side::Buy, self.bids@, self.prec),
            top_price::<V>(Side::Sell, self.asks@, self.prec),
        ]
    }

    open spec fn fired(&self) -> bool {
        true
    }

    open spec fn count(&self) -> nat {
        1
    }

    proof fn fills(&self) {
    }

    proof fn shaped() {
        lemma_one_dim(2usize);
    }

    fn dims() -> (r: Vec<usize>) {
        one_dim(2usize)
    }

    fn len() -> (r: usize) {
        2
    }

    fn flat(&self, out: &mut [V]) -> (fired: bool) {
        let up: Vec<(i32, u32)> = ascending(&self.bids);
        let bids: Vec<(i32, u32)> = crate::book::reversed(&up);
        let asks: Vec<(i32, u32)> = ascending(&self.asks);
        proof {
            ladder::lemma_listing(Side::Buy, bids@);
            ladder::lemma_listing(Side::Sell, asks@);
        }
        let bid: V = if bids.len() > 0 {
            scaled_down(bids[0].0 as i64, self.prec.price.0)
        } else {
            V::nan()
        };
        let ask: V = if asks.len() > 0 {
            scaled_down(asks[0].0 as i64, self.prec.price.0)
        } else {
            V::nan()
        };
        out[0] = bid;
        out[1] = ask;
        assert(out@ =~= <Self as Flat<V>>::slots(self));
        true
    }

    fn fires(&self) -> (r: usize) {
        1
    }
}

/// The two prices a book is read for.
impl<'a, V: Scalar> Flat<V> for &'a Book {
    open spec fn len_spec() -> nat {
        2
    }

    open spec fn dims_spec() -> Seq<usize> {
        seq![2usize]
    }

    open spec fn absentable() -> bool {
        true
    }

    open spec fn sound(&self) -> bool {
        self.wf()
    }

    open spec fn slots(&self) -> Seq<V> {
        seq![
            top_price::<V>(Side::Buy, self@.bids, self@.prec),
            top_price::<V>(Side::Sell, self@.asks, self@.prec),
        ]
    }

    open spec fn fired(&self) -> bool {
        true
    }

    open spec fn count(&self) -> nat {
        1
    }

    proof fn fills(&self) {
    }

    proof fn shaped() {
        lemma_one_dim(2usize);
    }

    fn dims() -> (r: Vec<usize>) {
        one_dim(2usize)
    }

    fn len() -> (r: usize) {
        2
    }

    fn flat(&self, out: &mut [V]) -> (fired: bool) {
        let bid: V = match self.best_bid() {
            Some((p, _)) => scaled_down(p.0.raw as i64, p.0.prec.0),
            None => V::nan(),
        };
        let ask: V = match self.best_ask() {
            Some((p, _)) => scaled_down(p.0.raw as i64, p.0.prec.0),
            None => V::nan(),
        };
        out[0] = bid;
        out[1] = ask;
        assert(out@ =~= <Self as Flat<V>>::slots(self));
        true
    }

    fn fires(&self) -> (r: usize) {
        1
    }
}

/// What a side is called.
pub open spec fn side_text(side: Side) -> Seq<char> {
    match side {
        Side::Buy => "Buy"@,
        Side::Sell => "Sell"@,
    }
}

fn push_side(out: &mut Vec<char>, side: Side)
    ensures
        final(out)@ == old(out)@ + side_text(side),
{
    match side {
        Side::Buy => text::push_str(out, "Buy"),
        Side::Sell => text::push_str(out, "Sell"),
    }
}

/// What a kind of frame is called.
pub open spec fn kind_text(kind: FrameKind) -> Seq<char> {
    match kind {
        FrameKind::Update => "Update"@,
        FrameKind::Correction => "Correction"@,
    }
}

/// A quantity at a price.
pub open spec fn level_text(prec: PrecisionPriceQty, price: i32, qty: u32) -> Seq<char> {
    short_text(qty as int, prec.qty.0 as int) + "@"@ + short_text(price as int, prec.price.0 as int)
}

pub open spec fn level_writable(prec: PrecisionPriceQty, price: i32, qty: u32) -> bool {
    writable(qty as int, prec.qty.0 as int) && writable(price as int, prec.price.0 as int)
}

fn push_level(out: &mut Vec<char>, prec: PrecisionPriceQty, price: i32, qty: u32)
    requires
        level_writable(prec, price, qty),
    ensures
        final(out)@ == old(out)@ + level_text(prec, price, qty),
{
    proof {
        crate::precision::lemma_ten();
    }
    let ghost before = out@;
    text::push_all(out, write_short(qty as i64, prec.qty).as_slice());
    text::push_str(out, "@");
    text::push_all(out, write_short(price as i64, prec.price).as_slice());
    assert(out@ =~= before + level_text(prec, price, qty));
}

impl Glance for BookDelta {
    open spec fn readable(&self) -> bool {
        level_writable(self.prec, self.price, self.qty)
    }

    open spec fn headline(&self) -> Seq<char> {
        kind_text(self.kind) + " "@ + side_text(self.side) + " "@ + level_text(
            self.prec,
            self.price,
            self.qty,
        )
    }

    fn glance(&self) -> (r: String) {
        let mut out: Vec<char> = Vec::new();
        match self.kind {
            FrameKind::Update => text::push_str(&mut out, "Update"),
            FrameKind::Correction => text::push_str(&mut out, "Correction"),
        }
        text::push_str(&mut out, " ");
        push_side(&mut out, self.side);
        text::push_str(&mut out, " ");
        push_level(&mut out, self.prec, self.price, self.qty);
        assert(out@ =~= self.headline());
        text::string_of(out.as_slice())
    }
}

impl<'a> Glance for TradeCols<'a> {
    open spec fn readable(&self) -> bool {
        &&& self.wf()
        &&& self.price@.len() > 0 ==> level_writable(self.prec, self.price@.last(), self.qty@.last())
    }

    open spec fn headline(&self) -> Seq<char> {
        if self.price@.len() == 0 {
            "[]"@
        } else {
            side_text(self.side@.last()) + " "@ + level_text(
                self.prec,
                self.price@.last(),
                self.qty@.last(),
            )
        }
    }

    fn glance(&self) -> (r: String) {
        let mut out: Vec<char> = Vec::new();
        let n: usize = self.len();
        if n == 0 {
            text::push_str(&mut out, "[]");
        } else {
            push_side(&mut out, self.side[n - 1]);
            text::push_str(&mut out, " ");
            push_level(&mut out, self.prec, self.price[n - 1], self.qty[n - 1]);
        }
        assert(out@ =~= self.headline());
        text::string_of(out.as_slice())
    }
}

/// The one thing only the chunk can say: what the retention actually costs.
impl<'a> Glance for &'a BookChunk {
    open spec fn readable(&self) -> bool {
        self.wf() && held(**self) <= usize::MAX
    }

    open spec fn headline(&self) -> Seq<char> {
        decimal(held(**self)) + " lvls net"@
    }

    fn glance(&self) -> (r: String) {
        let mut out: Vec<char> = Vec::new();
        text::push_decimal(&mut out, self.levels() as u64);
        text::push_str(&mut out, " lvls net");
        assert(out@ =~= self.headline());
        text::string_of(out.as_slice())
    }
}

/// How many levels a chunk holds.
pub open spec fn held(chunk: BookChunk) -> nat {
    listing(Side::Sell, chunk@.bids).len() + listing(Side::Sell, chunk@.asks).len() + listing(
        Side::Sell,
        chunk@.prev_bids,
    ).len() + listing(Side::Sell, chunk@.prev_asks).len()
}

impl<'a> Glance for &'a BookShape {
    open spec fn readable(&self) -> bool {
        true
    }

    open spec fn headline(&self) -> Seq<char> {
        "checkpoint "@ + decimal(listing(Side::Sell, self.bids@).len()) + "b/"@ + decimal(
            listing(Side::Sell, self.asks@).len(),
        ) + "a"@
    }

    fn glance(&self) -> (r: String) {
        let bids: Vec<(i32, u32)> = ascending(&self.bids);
        let asks: Vec<(i32, u32)> = ascending(&self.asks);
        proof {
            ladder::lemma_listing(Side::Sell, bids@);
            ladder::lemma_listing(Side::Sell, asks@);
        }
        let mut out: Vec<char> = Vec::new();
        text::push_str(&mut out, "checkpoint ");
        text::push_decimal(&mut out, bids.len() as u64);
        text::push_str(&mut out, "b/");
        text::push_decimal(&mut out, asks.len() as u64);
        text::push_str(&mut out, "a");
        assert(out@ =~= self.headline());
        text::string_of(out.as_slice())
    }
}

impl<'a> Glance for &'a Book {
    open spec fn readable(&self) -> bool {
        &&& self.wf()
        &&& self@.depth() <= usize::MAX
        &&& self@.top(Side::Buy) matches Some((p, _)) ==> writable(p.0.raw as int, p.0.prec.0 as int)
        &&& self@.top(Side::Sell) matches Some((p, _)) ==> writable(p.0.raw as int, p.0.prec.0 as int)
    }

    open spec fn headline(&self) -> Seq<char> {
        match (self@.top(Side::Buy), self@.top(Side::Sell)) {
            (Some((b, _)), Some((a, _))) => decimal_text(b.0.raw as int, b.0.prec.0 as int) + "/"@
                + decimal_text(a.0.raw as int, a.0.prec.0 as int) + " ("@ + decimal(self@.depth())
                + " lvls)"@,
            _ => "empty ("@ + decimal(self@.depth()) + " lvls)"@,
        }
    }

    fn glance(&self) -> (r: String) {
        let mut out: Vec<char> = Vec::new();
        match (self.best_bid(), self.best_ask()) {
            (Some((b, _)), Some((a, _))) => {
                let (b, a): (String, String) = (b.text(), a.text());
                text::push_str(&mut out, b.as_str());
                text::push_str(&mut out, "/");
                text::push_str(&mut out, a.as_str());
                text::push_str(&mut out, " (");
            },
            _ => {
                text::push_str(&mut out, "empty (");
            },
        }
        text::push_decimal(&mut out, self.len() as u64);
        text::push_str(&mut out, " lvls)");
        assert(out@ =~= self.headline());
        text::string_of(out.as_slice())
    }
}

} // verus!
