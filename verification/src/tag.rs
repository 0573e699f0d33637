//! Names spelled from parts, in a buffer of fixed size.

use vstd::prelude::*;
use vstd::utf8::{encode_utf8, valid_utf8};

use crate::horizon::{Horizon, Timeframe, TimeframeDesignator};
use crate::text::{decimal, digit_char};

verus! {

/// The bytes a name can take.
pub const TAG_CAP: usize = 256;

/// A period as it is read: how many of its largest whole unit.
pub open spec fn timeframe_text(tf: Timeframe) -> Seq<char> {
    let d = unit_of(tf);
    decimal((tf.0 as int / d.millis()) as nat) + d.letters()
}

/// The largest unit a period is a whole number of.
pub open spec fn unit_of(tf: Timeframe) -> TimeframeDesignator {
    choose|d: TimeframeDesignator| tf.designated(d)
}

/// A reach as it is read.
pub open spec fn horizon_text(h: Horizon) -> Seq<char> {
    match h {
        Horizon::Unit => "Unit"@,
        Horizon::Unbounded => "Unbounded"@,
        Horizon::Elems(n) => "Elems("@ + decimal(n as nat) + ")"@,
        Horizon::Over(tf) => "Over("@ + timeframe_text(tf) + ")"@,
    }
}

/// Names with a comma between each two.
pub open spec fn listed(names: Seq<Seq<char>>) -> Seq<char>
    decreases names.len(),
{
    if names.len() == 0 {
        Seq::empty()
    } else if names.len() == 1 {
        names[0]
    } else {
        listed(names.drop_last()) + ", "@ + names.last()
    }
}

/// The characters of each of a run of names.
pub open spec fn views(names: Seq<&str>) -> Seq<Seq<char>> {
    names.map_values(|s: &str| s@)
}

/// A unit is settled by its length.
pub proof fn lemma_one_unit(tf: Timeframe, d: TimeframeDesignator)
    requires
        tf.designated(d),
    ensures
        unit_of(tf) == d,
{
    let e = unit_of(tf);
    assert(tf.designated(e));
    assert(tf.whole_in(d) && tf.whole_in(e));
}

/// Two texts together take the bytes of both.
pub proof fn lemma_encode_adds(a: Seq<char>, b: Seq<char>)
    ensures
        encode_utf8(a + b) == encode_utf8(a) + encode_utf8(b),
    decreases a.len(),
{
    if a.len() == 0 {
        assert(a + b =~= b);
        assert(encode_utf8(a) + encode_utf8(b) =~= encode_utf8(b));
    } else {
        assert((a + b).drop_first() =~= a.drop_first() + b);
        lemma_encode_adds(a.drop_first(), b);
        assert(encode_utf8(a + b) =~= encode_utf8(a) + encode_utf8(b));
    }
}

/// A name a parameter can reach: the parts are spelled into a fixed buffer.
pub struct Tag {
    buf: [u8; 256],
    len: usize,
    text: Ghost<Seq<char>>,
}

impl View for Tag {
    type V = Seq<char>;

    closed spec fn view(&self) -> Seq<char> {
        self.text@
    }
}

/// Append bytes to the first `len` of a buffer. A name that does not fit has no place to go.
pub fn write(buf: &mut [u8; 256], len: usize, src: &[u8]) -> (r: usize)
    requires
        len + src@.len() <= TAG_CAP,
    ensures
        r == len + src@.len(),
        final(buf)@.take(r as int) == old(buf)@.take(len as int) + src@,
{
    let ghost before = buf@.take(len as int);
    let mut i: usize = 0;
    assert(buf@.take(len as int) =~= before + src@.take(0));
    while i < src.len()
        invariant
            i <= src@.len(),
            len + src@.len() <= TAG_CAP,
            buf@.take(len + i) == before + src@.take(i as int),
        decreases src@.len() - i,
    {
        let ghost prev = buf@;
        buf[len + i] = src[i];
        assert(buf@ =~= prev.update(len + i, src@[i as int]));
        assert(buf@.take(len + i + 1) =~= prev.take(len + i).push(src@[i as int]));
        i += 1;
        assert(before + src@.take(i as int) =~= (before + src@.take(i - 1)).push(src@[i - 1]));
    }
    assert(src@.take(src@.len() as int) =~= src@);
    len + i
}

/// Append a number in decimal to the first `len` of a buffer.
pub fn digits(buf: &mut [u8; 256], len: usize, n: u64) -> (r: usize)
    requires
        len + decimal(n as nat).len() <= TAG_CAP,
    ensures
        r == len + decimal(n as nat).len(),
        final(buf)@.take(r as int) == old(buf)@.take(len as int) + encode_utf8(decimal(n as nat)),
    decreases n,
{
    if n < 10 {
        proof {
            lemma_encode_digit(n as int);
        }
        let d: [u8; 1] = [48u8 + n as u8];
        write(buf, len, d.as_slice())
    } else {
        let at: usize = digits(buf, len, n / 10);
        proof {
            lemma_encode_digit(n as int % 10);
            let c = seq![digit_char(n as int % 10)];
            lemma_encode_adds(decimal((n / 10) as nat), c);
            assert(decimal(n as nat) =~= decimal((n / 10) as nat) + c);
        }
        let d: [u8; 1] = [48u8 + (n % 10) as u8];
        let r: usize = write(buf, at, d.as_slice());
        assert(buf@.take(r as int) =~= old(buf)@.take(len as int) + encode_utf8(
            decimal(n as nat),
        ));
        r
    }
}

/// A digit is one byte.
proof fn lemma_encode_digit(d: int)
    requires
        0 <= d < 10,
    ensures
        encode_utf8(seq![digit_char(d)]) == seq![(48u8 + d) as u8],
{
    reveal_with_fuel(encode_utf8, 2);
    let s = seq![digit_char(d)];
    assert(s.drop_first() =~= Seq::empty());
    let v = digit_char(d) as u32;
    assert(v == 48 + d);
    assert(v <= 57 ==> (v & 0x7F) as u8 == v) by (bit_vector);
    assert(encode_utf8(s) =~= seq![(48u8 + d) as u8]);
}

/// `core::str::from_utf8`, of bytes that are valid UTF-8: it borrows them as the text they encode.
#[verifier::external_body]
fn borrow_utf8(bytes: &[u8]) -> (r: &str)
    requires
        valid_utf8(bytes@),
    ensures
        encode_utf8(r@) == bytes@,
{
    core::str::from_utf8(bytes).expect("a name is spelled one whole str at a time")
}

/// Append a period as it is read to the first `len` of a buffer.
fn timeframe(buf: &mut [u8; 256], len: usize, tf: Timeframe) -> (r: usize)
    requires
        tf.0 != 0,
        len + encode_utf8(timeframe_text(tf)).len() <= TAG_CAP,
    ensures
        r == len + encode_utf8(timeframe_text(tf)).len(),
        final(buf)@.take(r as int) == old(buf)@.take(len as int) + encode_utf8(timeframe_text(tf)),
{
    let designator: TimeframeDesignator = tf.designator();
    let millis: u64 = designator.as_millis();
    let ghost count = decimal((tf.0 / millis) as nat);
    proof {
        lemma_one_unit(tf, designator);
        lemma_encode_adds(count, designator.letters());
        lemma_encode_decimal((tf.0 / millis) as nat);
    }
    let at: usize = digits(buf, len, tf.0 / millis);
    let r: usize = write(buf, at, designator.as_str().as_bytes());
    assert(buf@.take(r as int) =~= old(buf)@.take(len as int) + encode_utf8(timeframe_text(tf)));
    r
}

/// A number takes a byte a digit.
proof fn lemma_encode_decimal(n: nat)
    ensures
        encode_utf8(decimal(n)).len() == decimal(n).len(),
    decreases n,
{
    if n < 10 {
        lemma_encode_digit(n as int);
    } else {
        lemma_encode_decimal(n / 10);
        lemma_encode_digit(n as int % 10);
        let c = seq![digit_char(n as int % 10)];
        lemma_encode_adds(decimal(n / 10), c);
        assert(decimal(n) =~= decimal(n / 10) + c);
    }
}

impl Tag {
    /// Whether the buffer holds the bytes of the text.
    pub closed spec fn wf(&self) -> bool {
        &&& self.len <= TAG_CAP
        &&& self.buf@.take(self.len as int) == encode_utf8(self.text@)
    }

    /// Nothing spelled yet.
    fn blank() -> (r: Self)
        ensures
            r.wf(),
            r@ == Seq::<char>::empty(),
    {
        let r = Tag { buf: [0u8; 256], len: 0, text: Ghost(Seq::empty()) };
        assert(r.buf@.take(0) =~= encode_utf8(Seq::empty()));
        r
    }

    /// The name with a text behind it.
    fn spell(self, s: &str) -> (r: Self)
        requires
            self.wf(),
            encode_utf8(self@ + s@).len() <= TAG_CAP,
        ensures
            r.wf(),
            r@ == self@ + s@,
    {
        proof {
            lemma_encode_adds(self.text@, s@);
        }
        let mut buf: [u8; 256] = self.buf;
        let len: usize = write(&mut buf, self.len, s.as_bytes());
        Tag { buf, len, text: Ghost(self.text@ + s@) }
    }

    /// The name with a number behind it.
    fn spell_digits(self, n: u64) -> (r: Self)
        requires
            self.wf(),
            encode_utf8(self@ + decimal(n as nat)).len() <= TAG_CAP,
        ensures
            r.wf(),
            r@ == self@ + decimal(n as nat),
    {
        proof {
            lemma_encode_adds(self.text@, decimal(n as nat));
            lemma_encode_decimal(n as nat);
        }
        let mut buf: [u8; 256] = self.buf;
        let len: usize = digits(&mut buf, self.len, n);
        Tag { buf, len, text: Ghost(self.text@ + decimal(n as nat)) }
    }

    /// The name with a period behind it.
    fn spell_timeframe(self, tf: Timeframe) -> (r: Self)
        requires
            self.wf(),
            tf.0 != 0,
            encode_utf8(self@ + timeframe_text(tf)).len() <= TAG_CAP,
        ensures
            r.wf(),
            r@ == self@ + timeframe_text(tf),
    {
        proof {
            lemma_encode_adds(self.text@, timeframe_text(tf));
        }
        let mut buf: [u8; 256] = self.buf;
        let len: usize = timeframe(&mut buf, self.len, tf);
        Tag { buf, len, text: Ghost(self.text@ + timeframe_text(tf)) }
    }

    /// A cell parameterised by a bare number: `Bars<1>` leaves the reader to guess the unit, where
    /// `Bar:1m` states it.
    pub fn new(prefix: &str, tf: Timeframe) -> (r: Self)
        requires
            tf.0 != 0,
            encode_utf8(prefix@ + timeframe_text(tf)).len() <= TAG_CAP,
        ensures
            r.wf(),
            r@ == prefix@ + timeframe_text(tf),
    {
        proof {
            lemma_encode_adds(prefix@, timeframe_text(tf));
            assert(Seq::<char>::empty() + prefix@ =~= prefix@);
        }
        Tag::blank().spell(prefix).spell_timeframe(tf)
    }

    /// A cell parameterised by other cells, named from theirs: `Rsi<Bar:1m, Len14>`.
    pub fn of(prefix: &str, params: &[&str]) -> (r: Self)
        requires
            params@.len() > 0,
            encode_utf8(prefix@ + "<"@ + listed(views(params@)) + ">"@).len() <= TAG_CAP,
        ensures
            r.wf(),
            r@ == prefix@ + "<"@ + listed(views(params@)) + ">"@,
    {
        let ghost head = prefix@ + "<"@;
        let ghost names = views(params@);
        proof {
            lemma_listed_fits(head, names, names.len() as int, ">"@);
            lemma_encode_adds(prefix@, "<"@);
            lemma_encode_adds(head, listed(names));
            lemma_encode_adds(head + listed(names), ">"@);
            assert(Seq::<char>::empty() + prefix@ =~= prefix@);
            assert(head + listed(names.take(0)) =~= head);
        }
        let mut tag: Tag = Tag::blank().spell(prefix).spell("<");
        let mut i: usize = 0;
        while i < params.len()
            invariant
                i <= params@.len(),
                names == views(params@),
                encode_utf8(head + listed(names) + ">"@).len() <= TAG_CAP,
                tag.wf(),
                tag@ == head + listed(names.take(i as int)),
            decreases params@.len() - i,
        {
            proof {
                lemma_listed_fits(head, names, i + 1, ">"@);
                let shorter = names.take(i as int);
                let longer = names.take(i + 1);
                assert(longer.drop_last() =~= shorter);
                assert(longer.last() == params@[i as int]@);
                if i > 0 {
                    let sep = head + listed(shorter) + ", "@;
                    assert(sep + params@[i as int]@ =~= head + listed(longer));
                    lemma_encode_adds(sep, params@[i as int]@);
                } else {
                    assert(head + listed(shorter) =~= head);
                    assert(head + params@[i as int]@ =~= head + listed(longer));
                }
            }
            if i > 0 {
                tag = tag.spell(", ");
            }
            tag = tag.spell(params[i]);
            i += 1;
        }
        assert(names.take(names.len() as int) =~= names);
        tag.spell(">")
    }

    /// A second period, for a cell whose identity is the pair: `Change:1m/3m` reads off 1m bars over
    /// three minutes, and is not the same series as `Change:3m/1m`.
    pub fn then(self, tf: Timeframe) -> (r: Self)
        requires
            self.wf(),
            tf.0 != 0,
            encode_utf8(self@ + "/"@ + timeframe_text(tf)).len() <= TAG_CAP,
        ensures
            r.wf(),
            r@ == self@ + "/"@ + timeframe_text(tf),
    {
        proof {
            lemma_encode_adds(self@ + "/"@, timeframe_text(tf));
        }
        self.spell("/").spell_timeframe(tf)
    }

    /// A count of elements, where a period alone would leave the window unsaid: `Momentum:5mx181`.
    pub fn count(self, n: usize) -> (r: Self)
        requires
            self.wf(),
            encode_utf8(self@ + "x"@ + decimal(n as nat)).len() <= TAG_CAP,
        ensures
            r.wf(),
            r@ == self@ + "x"@ + decimal(n as nat),
    {
        proof {
            lemma_encode_adds(self@ + "x"@, decimal(n as nat));
        }
        self.spell("x").spell_digits(n as u64)
    }

    pub fn as_str(&self) -> (r: &str)
        requires
            self.wf(),
        ensures
            r@ == self@,
    {
        let bytes: &[u8] = vstd::slice::slice_subrange(self.buf.as_slice(), 0, self.len);
        proof {
            assert(bytes@ =~= self.buf@.take(self.len as int));
            vstd::utf8::encode_utf8_valid_utf8(self.text@);
        }
        let r: &str = borrow_utf8(bytes);
        proof {
            vstd::utf8::encode_utf8_decode_utf8(self.text@);
            vstd::utf8::encode_utf8_decode_utf8(r@);
        }
        r
    }
}

/// A shorter listing takes no more bytes than a longer one.
proof fn lemma_listed_fits(head: Seq<char>, names: Seq<Seq<char>>, n: int, tail: Seq<char>)
    requires
        0 <= n <= names.len(),
    ensures
        encode_utf8(head + listed(names.take(n))).len() <= encode_utf8(
            head + listed(names) + tail,
        ).len(),
    decreases names.len(),
{
    lemma_encode_adds(head + listed(names), tail);
    if n == names.len() {
        assert(names.take(n) =~= names);
    } else {
        let rest = names.drop_last();
        assert(rest.take(n) =~= names.take(n));
        if rest.len() == 0 {
            assert(head + listed(rest) =~= head);
            lemma_encode_adds(head, listed(names));
            assert(names.take(n) =~= rest);
        } else {
            let more = ", "@ + names.last();
            lemma_listed_fits(head, rest, n, more);
            assert(head + listed(rest) + more =~= head + listed(names));
        }
    }
}

impl Horizon {
    /// The reach as a name fragment. Unqualified: the only place a reach is spelled is a retaining
    /// wrapper's parameter list, where the position already says what it is.
    pub fn tag(self) -> (r: Tag)
        requires
            self matches Horizon::Over(tf) ==> tf.0 != 0,
        ensures
            r.wf(),
            r@ == horizon_text(self),
    {
        proof {
            reveal_strlit("Unit");
            reveal_strlit("Unbounded");
            reveal_strlit("Elems(");
            reveal_strlit("Over(");
            reveal_strlit(")");
        }
        match self {
            Horizon::Unit => {
                assert(Seq::<char>::empty() + "Unit"@ =~= "Unit"@);
                proof {
                    lemma_ascii_fits("Unit"@);
                }
                Tag::blank().spell("Unit")
            },
            Horizon::Unbounded => {
                assert(Seq::<char>::empty() + "Unbounded"@ =~= "Unbounded"@);
                proof {
                    lemma_ascii_fits("Unbounded"@);
                }
                Tag::blank().spell("Unbounded")
            },
            Horizon::Elems(n) => {
                proof {
                    assert(Seq::<char>::empty() + "Elems("@ =~= "Elems("@);
                    lemma_ascii_fits("Elems("@);
                    lemma_ascii_fits(")"@);
                    lemma_decimal_short(n as nat);
                    lemma_encode_decimal(n as nat);
                    lemma_encode_adds("Elems("@, decimal(n as nat));
                    lemma_encode_adds("Elems("@ + decimal(n as nat), ")"@);
                }
                Tag::blank().spell("Elems(").spell_digits(n as u64).spell(")")
            },
            Horizon::Over(tf) => {
                proof {
                    assert(Seq::<char>::empty() + "Over("@ =~= "Over("@);
                    lemma_ascii_fits("Over("@);
                    lemma_ascii_fits(")"@);
                    lemma_timeframe_short(tf);
                    lemma_encode_adds("Over("@, timeframe_text(tf));
                    lemma_encode_adds("Over("@ + timeframe_text(tf), ")"@);
                }
                Tag::blank().spell("Over(").spell_timeframe(tf).spell(")")
            },
        }
    }
}

/// Plain characters take a byte each.
proof fn lemma_ascii_fits(s: Seq<char>)
    requires
        vstd::utf8::is_ascii_chars(s),
    ensures
        encode_utf8(s).len() == s.len(),
{
    vstd::utf8::is_ascii_chars_encode_utf8(s);
}

/// No number of sixty-four bits takes more than twenty digits.
proof fn lemma_decimal_short(n: nat)
    requires
        n <= u64::MAX,
    ensures
        decimal(n).len() <= 20,
{
    reveal_with_fuel(decimal, 21);
}

/// No period takes more than twenty-two bytes.
proof fn lemma_timeframe_short(tf: Timeframe)
    requires
        tf.0 != 0,
    ensures
        encode_utf8(timeframe_text(tf)).len() <= 22,
{
    let d = unit_of(tf);
    let m = d.millis();
    let n = tf.0 as int / m;
    assert(0 <= n <= tf.0) by (nonlinear_arith)
        requires
            n == tf.0 as int / m,
            m >= 1,
    ;
    lemma_decimal_short(n as nat);
    lemma_encode_decimal(n as nat);
    lemma_encode_adds(decimal(n as nat), d.letters());
    reveal_strlit("ms");
    reveal_strlit("s");
    reveal_strlit("m");
    reveal_strlit("h");
    reveal_strlit("d");
    reveal_strlit("w");
    reveal_strlit("M");
    reveal_strlit("Q");
    reveal_strlit("y");
    lemma_ascii_fits(d.letters());
}

/// Append a period as it is read.
pub fn push_timeframe(out: &mut Vec<char>, tf: Timeframe)
    requires
        tf.0 != 0,
    ensures
        final(out)@ == old(out)@ + timeframe_text(tf),
{
    let designator: TimeframeDesignator = tf.designator();
    proof {
        lemma_one_unit(tf, designator);
    }
    crate::text::push_decimal(out, tf.0 / designator.as_millis());
    crate::text::push_str(out, designator.as_str());
    assert(out@ =~= old(out)@ + timeframe_text(tf));
}

} // verus!
