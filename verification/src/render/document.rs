//! What a renderer produces: text, and between it the quantities that are not
//! whole numbers, each with the form in which it is to be written.

use vstd::prelude::*;

use crate::text::push_str;
use crate::units::{Bytes, KiloHertz, MicroWatts, MilliCelsius, PerSecond, Percent};

verus! {

/// A quantity that is not written as a whole number.
#[derive(Debug)]
pub enum Quantity {
    /// A time in seconds.
    Seconds { nanos: u64 },
    /// A share in per cent.
    Share(Percent),
    /// A rate per second.
    Rate(PerSecond),
    /// A temperature in degrees Celsius.
    Celsius(MilliCelsius),
    /// A power in watts.
    Watts(MicroWatts),
    /// A clock in gigahertz.
    Gigahertz(KiloHertz),
    /// A finite number, as the kernel wrote it.
    Numeral(String),
}

pub enum QuantityView {
    Seconds { nanos: u64 },
    Share((nat, nat)),
    Rate(PerSecond),
    Celsius(MilliCelsius),
    Watts(MicroWatts),
    Gigahertz(KiloHertz),
    Numeral(Seq<char>),
}

impl View for Quantity {
    type V = QuantityView;

    open spec fn view(&self) -> QuantityView {
        match *self {
            Quantity::Seconds { nanos } => QuantityView::Seconds { nanos },
            Quantity::Share(p) => QuantityView::Share(p@),
            Quantity::Rate(r) => QuantityView::Rate(r),
            Quantity::Celsius(t) => QuantityView::Celsius(t),
            Quantity::Watts(w) => QuantityView::Watts(w),
            Quantity::Gigahertz(k) => QuantityView::Gigahertz(k),
            Quantity::Numeral(s) => QuantityView::Numeral(s@),
        }
    }
}

/// One piece of a document.
#[derive(Debug)]
pub enum Piece {
    Text(String),
    /// As many digits as the quantity needs.
    Number(Quantity),
    /// A fixed number of decimals, to the right of a column.
    Fixed { value: Quantity, decimals: usize, width: usize },
    /// A size in the unit that suits it.
    Size(Bytes),
    /// A rate of bytes in the unit that suits it.
    Throughput(PerSecond),
    /// A bar of this width.
    Bar { share: Percent, width: usize },
}

/// One character of a document, or one quantity in its form.
pub enum Glyph {
    Letter(char),
    Number(QuantityView),
    Fixed { value: QuantityView, decimals: usize, width: usize },
    Size(Bytes),
    Throughput(PerSecond),
    Bar { share: (nat, nat), width: usize },
}

/// A character as a glyph.
pub open spec fn letter(c: char) -> Glyph {
    Glyph::Letter(c)
}

/// A text as glyphs.
pub open spec fn chars(s: Seq<char>) -> Seq<Glyph> {
    s.map_values(|c: char| letter(c))
}

/// A piece as glyphs.
pub open spec fn piece_glyphs(p: Piece) -> Seq<Glyph> {
    match p {
        Piece::Text(s) => chars(s@),
        Piece::Number(q) => seq![Glyph::Number(q@)],
        Piece::Fixed { value, decimals, width } => seq![
            Glyph::Fixed { value: value@, decimals, width },
        ],
        Piece::Size(b) => seq![Glyph::Size(b)],
        Piece::Throughput(r) => seq![Glyph::Throughput(r)],
        Piece::Bar { share, width } => seq![Glyph::Bar { share: share@, width }],
    }
}

pub open spec fn glyphs(pieces: Seq<Piece>) -> Seq<Glyph>
    decreases pieces.len(),
{
    if pieces.len() == 0 {
        seq![]
    } else {
        glyphs(pieces.drop_last()) + piece_glyphs(pieces.last())
    }
}

pub proof fn lemma_chars_sum(a: Seq<char>, b: Seq<char>)
    ensures
        chars(a + b) == chars(a) + chars(b),
{
    assert(chars(a + b).len() == (chars(a) + chars(b)).len());
    assert forall|i: int| 0 <= i < chars(a + b).len() implies chars(a + b)[i] == (chars(a) + chars(
        b,
    ))[i] by {
        if i < a.len() {
            assert((a + b)[i] == a[i]);
        } else {
            assert((a + b)[i] == b[i - a.len()]);
        }
    }
    assert(chars(a + b) =~= chars(a) + chars(b));
}

/// A document under construction.
#[derive(Debug)]
pub struct Document {
    pieces: Vec<Piece>,
}

impl View for Document {
    type V = Seq<Glyph>;

    closed spec fn view(&self) -> Seq<Glyph> {
        glyphs(self.pieces@)
    }
}

impl Document {
    pub fn new() -> (r: Document)
        ensures
            r@ == Seq::<Glyph>::empty(),
    {
        Document { pieces: Vec::new() }
    }

    /// Adds text.
    pub fn text(&mut self, s: &str)
        ensures
            final(self)@ == old(self)@ + chars(s@),
    {
        let ghost before = self.pieces@;
        match self.pieces.pop() {
            Some(Piece::Text(t)) => {
                let mut t = t;
                let ghost old_text = t@;
                push_str(&mut t, s);
                self.pieces.push(Piece::Text(t));
                proof {
                    lemma_chars_sum(old_text, s@);
                    assert(self.pieces@.drop_last() == before.drop_last());
                    assert(glyphs(before.drop_last()) + (chars(old_text) + chars(s@)) == (glyphs(
                        before.drop_last(),
                    ) + chars(old_text)) + chars(s@));
                }
            },
            Some(other) => {
                self.pieces.push(other);
                assert(self.pieces@ == before);
                self.add(Piece::Text(s.to_owned()));
            },
            None => {
                self.add(Piece::Text(s.to_owned()));
            },
        }
    }

    /// Adds a piece.
    pub fn add(&mut self, p: Piece)
        ensures
            final(self)@ == old(self)@ + piece_glyphs(p),
    {
        let ghost before = self.pieces@;
        self.pieces.push(p);
        assert(self.pieces@.drop_last() == before);
    }

    /// The pieces of the document, in order.
    pub fn into_pieces(self) -> (r: Vec<Piece>)
        ensures
            glyphs(r@) == self@,
    {
        self.pieces
    }

    /// The text of a document that holds nothing else.
    pub fn plain_text(&self) -> (r: Option<String>)
        ensures
            match r {
                Some(s) => self@ == chars(s@),
                None => exists|i: int| 0 <= i < self@.len() && !(#[trigger] self@[i] is Letter),
            },
    {
        let mut out: String = String::new();
        let mut i: usize = 0;
        assert(chars(out@) =~= Seq::<Glyph>::empty());
        assert(self.pieces@.take(0) =~= Seq::<Piece>::empty());
        while i < self.pieces.len()
            invariant
                i <= self.pieces@.len(),
                glyphs(self.pieces@.take(i as int)) == chars(out@),
            decreases self.pieces@.len() - i,
        {
            let ghost upto = self.pieces@.take(i + 1);
            assert(upto.drop_last() == self.pieces@.take(i as int));
            assert(upto.last() == self.pieces@[i as int]);
            match &self.pieces[i] {
                Piece::Text(s) => {
                    let ghost before = out@;
                    push_str(&mut out, s.as_str());
                    proof {
                        lemma_chars_sum(before, s@);
                    }
                },
                _ => {
                    proof {
                        lemma_glyphs_prefix(self.pieces@, i + 1);
                        let at = glyphs(self.pieces@.take(i as int)).len() as int;
                        assert(glyphs(upto)[at] == piece_glyphs(self.pieces@[i as int])[0]);
                        assert(self@[at] == glyphs(upto)[at]);
                    }
                    return None;
                },
            }
            i = i + 1;
        }
        assert(self.pieces@.take(i as int) == self.pieces@);
        Some(out)
    }
}

proof fn lemma_glyphs_prefix(pieces: Seq<Piece>, n: int)
    requires
        0 <= n <= pieces.len(),
    ensures
        glyphs(pieces.take(n)).len() <= glyphs(pieces).len(),
        glyphs(pieces).take(glyphs(pieces.take(n)).len() as int) == glyphs(pieces.take(n)),
    decreases pieces.len(),
{
    if n == pieces.len() {
        assert(pieces.take(n) == pieces);
        assert(glyphs(pieces).take(glyphs(pieces).len() as int) == glyphs(pieces));
    } else {
        let t = pieces.drop_last();
        assert(t.take(n) == pieces.take(n));
        lemma_glyphs_prefix(t, n);
        let k = glyphs(pieces.take(n)).len() as int;
        assert(glyphs(pieces).take(k) == glyphs(t).take(k));
    }
}

} // verus!
