//! The interpreter's values, and the store of cells that cons pairs point into.

use vstd::prelude::*;
use vstd::string::{StringExecFns, StringSliceAdditionalSpecFns};
use vstd::utf8::*;

verus! {

/// A value of the language. Addresses index the store.
#[derive(Debug, Clone, PartialEq, Eq)]
pub enum Value {
    Nil,
    Symbol(String),
    Byte(u8),
    Fixnum(isize),
    /// A pair: the addresses of its head and its tail.
    Cons(usize, usize),
    /// A string: its address and its length in bytes.
    String(usize, usize),
    /// A byte string: its address and its length.
    Bytes(usize, usize),
    /// A vector: its address and its length.
    Vector(usize, usize),
    Closure(usize),
    Intrinsic(usize),
}

/// The mathematical value of a value.
pub enum ValueView {
    Nil,
    Symbol(Seq<char>),
    Byte(u8),
    Fixnum(isize),
    Cons(usize, usize),
    String(usize, usize),
    Bytes(usize, usize),
    Vector(usize, usize),
    Closure(usize),
    Intrinsic(usize),
}

impl View for Value {
    type V = ValueView;

    open spec fn view(&self) -> ValueView {
        match self {
            Value::Nil => ValueView::Nil,
            Value::Symbol(s) => ValueView::Symbol(s@),
            Value::Byte(b) => ValueView::Byte(*b),
            Value::Fixnum(n) => ValueView::Fixnum(*n),
            Value::Cons(h, t) => ValueView::Cons(*h, *t),
            Value::String(a, l) => ValueView::String(*a, *l),
            Value::Bytes(a, l) => ValueView::Bytes(*a, *l),
            Value::Vector(a, l) => ValueView::Vector(*a, *l),
            Value::Closure(c) => ValueView::Closure(*c),
            Value::Intrinsic(i) => ValueView::Intrinsic(*i),
        }
    }
}

impl DeepView for Value {
    type V = ValueView;

    open spec fn deep_view(&self) -> ValueView {
        self@
    }
}

/// A copy of a value.
pub fn copy_value(v: &Value) -> (r: Value)
    ensures
        r@ == v@,
{
    match v {
        Value::Nil => Value::Nil,
        Value::Symbol(s) => Value::Symbol(s.clone()),
        Value::Byte(b) => Value::Byte(*b),
        Value::Fixnum(n) => Value::Fixnum(*n),
        Value::Cons(h, t) => Value::Cons(*h, *t),
        Value::String(a, l) => Value::String(*a, *l),
        Value::Bytes(a, l) => Value::Bytes(*a, *l),
        Value::Vector(a, l) => Value::Vector(*a, *l),
        Value::Closure(c) => Value::Closure(*c),
        Value::Intrinsic(i) => Value::Intrinsic(*i),
    }
}

/// Whether two values are the same value: the same variant with the same fields.
pub fn values_equal(a: &Value, b: &Value) -> (r: bool)
    ensures
        r == (a@ == b@),
{
    match (a, b) {
        (Value::Nil, Value::Nil) => true,
        (Value::Symbol(x), Value::Symbol(y)) => *x == *y,
        (Value::Byte(x), Value::Byte(y)) => *x == *y,
        (Value::Fixnum(x), Value::Fixnum(y)) => *x == *y,
        (Value::Cons(x1, x2), Value::Cons(y1, y2)) => *x1 == *y1 && *x2 == *y2,
        (Value::String(x1, x2), Value::String(y1, y2)) => *x1 == *y1 && *x2 == *y2,
        (Value::Bytes(x1, x2), Value::Bytes(y1, y2)) => *x1 == *y1 && *x2 == *y2,
        (Value::Vector(x1, x2), Value::Vector(y1, y2)) => *x1 == *y1 && *x2 == *y2,
        (Value::Closure(x), Value::Closure(y)) => *x == *y,
        (Value::Intrinsic(x), Value::Intrinsic(y)) => *x == *y,
        _ => false,
    }
}

/// Where values live: the cells that pairs and vectors point into, and the bytes
/// of the strings. A value stored goes into a new cell at the end, and a string
/// stored goes at the end of the bytes; both keep their addresses.
pub struct Store {
    cells: Vec<Value>,
    text: String,
}

/// The mathematical value of a store: its cells, and its strings' bytes in UTF-8.
pub struct StoreView {
    pub cells: Seq<ValueView>,
    pub text: Seq<u8>,
}

impl View for Store {
    type V = StoreView;

    closed spec fn view(&self) -> StoreView {
        StoreView { cells: self.cells.deep_view(), text: encode_utf8(self.text@) }
    }
}

/// Bytes `[a, a + l)` of `text` hold a string: they lie in the text and begin and
/// end on character boundaries.
pub open spec fn valid_str(text: Seq<u8>, a: int, l: int) -> bool {
    &&& 0 <= a
    &&& 0 <= l
    &&& a + l <= text.len()
    &&& is_char_boundary(text, a)
    &&& is_char_boundary(text, a + l)
}

/// The string that bytes `[a, a + l)` of `text` hold.
pub open spec fn str_at(text: Seq<u8>, a: int, l: int) -> Seq<char> {
    decode_utf8(text.subrange(a, a + l))
}

/// Encoding two strings one after the other gives the two encodings one after the other.
pub proof fn lemma_encode_utf8_concat(x: Seq<char>, y: Seq<char>)
    ensures
        encode_utf8(x + y) == encode_utf8(x) + encode_utf8(y),
    decreases x.len(),
{
    if x.len() == 0 {
        assert(x + y =~= y);
        assert(encode_utf8(x) =~= Seq::<u8>::empty());
        assert(encode_utf8(x) + encode_utf8(y) =~= encode_utf8(y));
    } else {
        lemma_encode_utf8_concat(x.drop_first(), y);
        assert((x + y).drop_first() =~= x.drop_first() + y);
        assert((x + y)[0] == x[0]);
        assert(encode_utf8(x + y) =~= encode_scalar(x[0] as u32) + encode_utf8(x.drop_first() + y));
    }
}

/// Between two character boundaries of valid UTF-8 lies valid UTF-8, and every
/// boundary in between is a boundary of that part.
pub proof fn lemma_region(bytes: Seq<u8>, a: int, b: int, c: int)
    requires
        valid_utf8(bytes),
        0 <= a <= b <= c <= bytes.len(),
        is_char_boundary(bytes, a),
        is_char_boundary(bytes, b),
        is_char_boundary(bytes, c),
    ensures
        valid_utf8(bytes.subrange(a, c)),
        is_char_boundary(bytes.subrange(a, c), b - a),
{
    valid_utf8_split(bytes, a);
    let rest = bytes.subrange(a, bytes.len() as int);
    assert(valid_utf8(rest));
    // c - a is a boundary of the rest
    if c - a == rest.len() {
        is_char_boundary_start_end_of_seq(rest);
    } else if c - a > 0 {
        is_char_boundary_iff_not_is_continuation_byte(bytes, c);
        is_char_boundary_iff_not_is_continuation_byte(rest, c - a);
        assert(rest[c - a] == bytes[c]);
    }
    assert(is_char_boundary(rest, c - a));
    valid_utf8_split(rest, c - a);
    let mid = rest.subrange(0, c - a);
    assert(mid =~= bytes.subrange(a, c));
    assert(valid_utf8(mid));
    if b - a == mid.len() {
        is_char_boundary_start_end_of_seq(mid);
    } else if b - a > 0 {
        is_char_boundary_iff_not_is_continuation_byte(bytes, b);
        is_char_boundary_iff_not_is_continuation_byte(mid, b - a);
        assert(mid[b - a] == bytes[b]);
    }
}

/// A string stored at the end of valid text is read back as stored: its bytes
/// begin and end on character boundaries and hold the string.
pub proof fn lemma_stored_string_reads_back(text: Seq<u8>, chars: Seq<char>)
    requires
        valid_utf8(text),
    ensures
        valid_str(text + encode_utf8(chars), text.len() as int, encode_utf8(chars).len() as int),
        str_at(text + encode_utf8(chars), text.len() as int, encode_utf8(chars).len() as int) == chars,
{
    let added = encode_utf8(chars);
    let whole = text + added;
    encode_utf8_valid_utf8(chars);
    valid_utf8_concat(text, added);
    is_char_boundary_start_end_of_seq(whole);
    if added.len() > 0 {
        is_char_boundary_start_end_of_seq(added);
        is_char_boundary_iff_not_is_continuation_byte(added, 0);
        is_char_boundary_iff_not_is_continuation_byte(whole, text.len() as int);
        assert(whole[text.len() as int] == added[0]);
    }
    assert(whole.subrange(text.len() as int, (text.len() + added.len()) as int) =~= added);
    encode_utf8_decode_utf8(chars);
}

/// A character boundary of valid text stays one when valid text is stored after it.
proof fn lemma_boundary_kept(text: Seq<u8>, more: Seq<u8>, x: int)
    requires
        valid_utf8(text),
        valid_utf8(more),
        0 <= x <= text.len(),
        is_char_boundary(text, x),
    ensures
        is_char_boundary(text + more, x),
{
    let w = text + more;
    valid_utf8_concat(text, more);
    if x == 0 {
        is_char_boundary_start_end_of_seq(w);
    } else if x < text.len() {
        is_char_boundary_iff_not_is_continuation_byte(text, x);
        is_char_boundary_iff_not_is_continuation_byte(w, x);
        assert(w[x] == text[x]);
    } else if more.len() == 0 {
        assert(w =~= text);
    } else {
        is_char_boundary_start_end_of_seq(more);
        is_char_boundary_iff_not_is_continuation_byte(more, 0);
        is_char_boundary_iff_not_is_continuation_byte(w, x);
        assert(w[x] == more[0]);
    }
}

/// A string of the store reads the same once another string is stored after it.
pub proof fn lemma_str_kept(text: Seq<u8>, more: Seq<char>, a: int, l: int)
    requires
        valid_utf8(text),
        valid_str(text, a, l),
    ensures
        valid_str(text + encode_utf8(more), a, l),
        str_at(text + encode_utf8(more), a, l) == str_at(text, a, l),
{
    let e = encode_utf8(more);
    encode_utf8_valid_utf8(more);
    lemma_boundary_kept(text, e, a);
    lemma_boundary_kept(text, e, a + l);
    assert((text + e).subrange(a, a + l) =~= text.subrange(a, a + l));
}

impl Store {
    /// An empty store.
    pub fn new() -> (r: Store)
        ensures
            r@.cells == Seq::<ValueView>::empty(),
            r@.text == Seq::<u8>::empty(),
    {
        let r = Store { cells: Vec::new(), text: String::new() };
        assert(r@.cells =~= Seq::<ValueView>::empty());
        r
    }

    /// The cells fit the address space.
    pub proof fn lemma_len_fits(&self)
        ensures
            self@.cells.len() <= usize::MAX,
    {
        assert(self.cells@.len() == self.cells.len());
    }

    /// The strings' bytes are valid UTF-8.
    pub proof fn lemma_text_valid(&self)
        ensures
            valid_utf8(self@.text),
    {
        encode_utf8_valid_utf8(self.text@);
    }

    /// The number of cells.
    pub fn len(&self) -> (r: usize)
        ensures
            r == self@.cells.len(),
    {
        self.cells.len()
    }

    /// Stores a value in a new cell, returning its address.
    pub fn store(&mut self, v: Value) -> (r: usize)
        ensures
            r == old(self)@.cells.len(),
            final(self)@ == (StoreView { cells: old(self)@.cells.push(v@), text: old(self)@.text }),
    {
        let r: usize = self.cells.len();
        let ghost prev = self.cells.deep_view();
        self.cells.push(v);
        assert(self.cells.deep_view() =~= prev.push(v@));
        r
    }

    /// The value at address `a`.
    pub fn get(&self, a: usize) -> (r: Value)
        requires
            a < self@.cells.len(),
        ensures
            r@ == self@.cells[a as int],
    {
        copy_value(&self.cells[a])
    }

    /// Stores the values in new cells one after another at the end, returning the
    /// address of the first and their number.
    pub fn store_vec(&mut self, vals: &Vec<Value>) -> (r: (usize, usize))
        requires
            old(self)@.cells.len() + vals.len() <= usize::MAX,
        ensures
            r.0 == old(self)@.cells.len(),
            r.1 == vals.len(),
            final(self)@ == (StoreView {
                cells: old(self)@.cells + vals.deep_view(),
                text: old(self)@.text,
            }),
    {
        let a: usize = self.cells.len();
        let ghost start = self.cells.deep_view();
        let mut i: usize = 0;
        while i < vals.len()
            invariant
                i <= vals.len(),
                a == start.len(),
                start.len() + vals.len() <= usize::MAX,
                self.cells.deep_view() == start + vals.deep_view().take(i as int),
                self@.text == old(self)@.text,
                start == old(self)@.cells,
            decreases vals.len() - i,
        {
            let ghost prev = self.cells.deep_view();
            self.cells.push(copy_value(&vals[i]));
            assert(self.cells.deep_view() =~= prev.push(vals.deep_view()[i as int]));
            assert(vals.deep_view().take(i + 1) =~= vals.deep_view().take(i as int).push(
                vals.deep_view()[i as int],
            ));
            assert(start + vals.deep_view().take(i + 1) =~= (start + vals.deep_view().take(
                i as int,
            )).push(vals.deep_view()[i as int]));
            i = i + 1;
        }
        assert(vals.deep_view().take(vals.len() as int) =~= vals.deep_view());
        (a, vals.len())
    }

    /// The values in cells `[a, a + l)`, in order.
    pub fn get_vec(&self, a: usize, l: usize) -> (r: Vec<Value>)
        requires
            a + l <= self@.cells.len(),
        ensures
            r.deep_view() == self@.cells.subrange(a as int, a + l),
    {
        let ghost cells = self@.cells;
        proof {
            self.lemma_len_fits();
        }
        let mut r: Vec<Value> = Vec::new();
        let mut i: usize = 0;
        while i < l
            invariant
                i <= l,
                a + l <= cells.len(),
                cells.len() <= usize::MAX,
                cells == self@.cells,
                r.deep_view() == cells.subrange(a as int, a + i),
            decreases l - i,
        {
            let ghost prev = r.deep_view();
            r.push(self.get(a + i));
            assert(r.deep_view() =~= prev.push(cells[a + i]));
            assert(cells.subrange(a as int, a + i + 1) =~= cells.subrange(a as int, a + i).push(
                cells[a + i],
            ));
            i = i + 1;
        }
        r
    }

    /// Stores a string at the end of the bytes, returning its address and its length
    /// in bytes.
    pub fn store_str(&mut self, s: &str) -> (r: (usize, usize))
        ensures
            r.0 == old(self)@.text.len(),
            r.1 == s.spec_bytes().len(),
            final(self)@ == (StoreView { cells: old(self)@.cells, text: old(self)@.text + s.spec_bytes() }),
            valid_str(final(self)@.text, r.0 as int, r.1 as int),
            str_at(final(self)@.text, r.0 as int, r.1 as int) == s@,
    {
        proof {
            self.lemma_text_valid();
            lemma_stored_string_reads_back(self@.text, s@);
        }
        let a: usize = self.text.as_str().as_bytes().len();
        let ghost before = self.text@;
        self.text.append(s);
        proof {
            lemma_encode_utf8_concat(before, s@);
        }
        let l: usize = s.as_bytes().len();
        (a, l)
    }

    /// Whether bytes `[a, a + l)` hold a string.
    pub fn holds_str(&self, a: usize, l: usize) -> (r: bool)
        ensures
            r == valid_str(self@.text, a as int, l as int),
    {
        let s = self.text.as_str();
        assert(s.spec_bytes() == self@.text);
        let n: usize = s.as_bytes().len();
        if a > n || l > n - a {
            return false;
        }
        s.is_char_boundary(a) && s.is_char_boundary(a + l)
    }

    /// The string held by bytes `[a, a + l)`.
    pub fn get_str(&self, a: usize, l: usize) -> (r: &str)
        requires
            valid_str(self@.text, a as int, l as int),
        ensures
            r@ == str_at(self@.text, a as int, l as int),
            r.spec_bytes() == self@.text.subrange(a as int, a + l),
    {
        let ghost bytes = self@.text;
        proof {
            self.lemma_text_valid();
            is_char_boundary_start_end_of_seq(bytes);
            lemma_region(bytes, a as int, a + l, bytes.len() as int);
        }
        let s = self.text.as_str();
        assert(s.spec_bytes() == bytes);
        let (_, rest) = s.split_at(a);
        assert(rest.spec_bytes() =~= bytes.subrange(a as int, bytes.len() as int));
        let (mid, _) = rest.split_at(l);
        assert(mid.spec_bytes() =~= bytes.subrange(a as int, a + l));
        proof {
            encode_utf8_decode_utf8(mid@);
        }
        mid
    }
}

} // verus!
