//! The intrinsics built into the language: the functions of the `intrinsics` package
//! that compute on values and on the store.

use vstd::prelude::*;
use vstd::string::StringExecFns;
use vstd::string::{StrSliceExecFns, StringSliceAdditionalSpecFns};
use vstd::utf8::*;
use crate::assoc::Named;
use crate::packages::PackageView;
use crate::value::{
    Store, StoreView, Value, ValueView, copy_value, lemma_encode_utf8_concat, lemma_region, lemma_str_kept, str_at,
    valid_str, values_equal,
};

verus! {

/// The characters `true`, the symbol that stands for truth.
pub open spec fn true_symbol() -> Seq<char> {
    seq!['t', 'r', 'u', 'e']
}

/// The value that stands for a truth value: the symbol `true`, or nil for false.
pub open spec fn spec_boolify(b: bool) -> ValueView {
    if b {
        ValueView::Symbol(true_symbol())
    } else {
        ValueView::Nil
    }
}

/// The value that stands for a truth value.
pub fn boolify(b: bool) -> (r: Value)
    ensures
        r@ == spec_boolify(b),
{
    if b {
        let t = "true".to_owned();
        proof {
            reveal_strlit("true");
        }
        assert(t@ =~= true_symbol());
        Value::Symbol(t)
    } else {
        Value::Nil
    }
}

/// A truth value is nil exactly when it is false.
pub proof fn lemma_boolify_nil(b: bool)
    ensures
        (spec_boolify(b) == ValueView::Nil) == !b,
{
}

/// The store and the pair after consing `h` onto `t`: both go into new cells.
pub open spec fn spec_cons(cells: Seq<ValueView>, h: ValueView, t: ValueView) -> (Seq<ValueView>, ValueView) {
    (cells.push(h).push(t), ValueView::Cons(cells.len() as usize, (cells.len() + 1) as usize))
}

/// The head of a pair.
pub open spec fn spec_car(cells: Seq<ValueView>, l: ValueView) -> ValueView {
    cells[l->Cons_0 as int]
}

/// The tail of a pair.
pub open spec fn spec_cdr(cells: Seq<ValueView>, l: ValueView) -> ValueView {
    cells[l->Cons_1 as int]
}

/// The head of a pair.
pub fn car(store: &Store, l: &Value) -> (r: Value)
    requires
        l@ matches ValueView::Cons(h, _) && h < store@.cells.len(),
    ensures
        r@ == spec_car(store@.cells, l@),
{
    match l {
        Value::Cons(h, _) => store.get(*h),
        _ => Value::Nil,
    }
}

/// The tail of a pair.
pub fn cdr(store: &Store, l: &Value) -> (r: Value)
    requires
        l@ matches ValueView::Cons(_, t) && t < store@.cells.len(),
    ensures
        r@ == spec_cdr(store@.cells, l@),
{
    match l {
        Value::Cons(_, t) => store.get(*t),
        _ => Value::Nil,
    }
}

/// The pair of `h` and `t`.
pub fn cons(store: &mut Store, h: Value, t: Value) -> (r: Value)
    requires
        old(store)@.cells.len() + 2 <= usize::MAX,
    ensures
        (final(store)@.cells, r@) == spec_cons(old(store)@.cells, h@, t@),
        final(store)@.text == old(store)@.text,
{
    let h: usize = store.store(h);
    let t: usize = store.store(t);
    Value::Cons(h, t)
}

/// The head of a new pair is what was consed, and so is its tail.
pub proof fn lemma_car_cdr_cons(cells: Seq<ValueView>, h: ValueView, t: ValueView)
    requires
        cells.len() + 2 <= usize::MAX,
    ensures
        spec_car(spec_cons(cells, h, t).0, spec_cons(cells, h, t).1) == h,
        spec_cdr(spec_cons(cells, h, t).0, spec_cons(cells, h, t).1) == t,
{
}

/// `v` is a proper list of the elements `xs`: a chain of pairs whose heads are the
/// elements, in order, ending in nil.
pub open spec fn is_list(cells: Seq<ValueView>, v: ValueView, xs: Seq<ValueView>) -> bool
    decreases xs.len(),
{
    if xs.len() == 0 {
        v == ValueView::Nil
    } else {
        match v {
            ValueView::Cons(h, t) => h < cells.len() && t < cells.len() && cells[h as int] == xs[0]
                && is_list(cells, cells[t as int], xs.drop_first()),
            _ => false,
        }
    }
}

/// A list stays the same list when more cells are stored.
pub proof fn lemma_is_list_extend(cells: Seq<ValueView>, more: Seq<ValueView>, v: ValueView, xs: Seq<ValueView>)
    requires
        is_list(cells, v, xs),
    ensures
        is_list(cells + more, v, xs),
    decreases xs.len(),
{
    if xs.len() > 0 {
        let t = v->Cons_1;
        lemma_is_list_extend(cells, more, cells[t as int], xs.drop_first());
        assert((cells + more)[t as int] == cells[t as int]);
        assert((cells + more)[v->Cons_0 as int] == cells[v->Cons_0 as int]);
    }
}

/// The cells that building the list of `xs` appends to a store of `base` cells, and
/// the list: the list of the rest is built first, then the first element and that
/// list go into two new cells.
pub open spec fn spec_list(base: int, xs: Seq<ValueView>) -> (Seq<ValueView>, ValueView)
    decreases xs.len(),
{
    if xs.len() == 0 {
        (Seq::empty(), ValueView::Nil)
    } else {
        let (cells, tail) = spec_list(base, xs.drop_first());
        let h = base + cells.len();
        (cells + seq![xs[0], tail], ValueView::Cons(h as usize, (h + 1) as usize))
    }
}

/// The proper list of the arguments, built from the last one back.
pub fn list(store: &mut Store, args: &Vec<Value>) -> (r: Value)
    requires
        old(store)@.cells.len() + 2 * args.len() <= usize::MAX,
    ensures
        is_list(final(store)@.cells, r@, args.deep_view()),
        final(store)@.cells.len() == old(store)@.cells.len() + 2 * args.len(),
        final(store)@.cells.subrange(0, old(store)@.cells.len() as int) == old(store)@.cells,
        final(store)@.text == old(store)@.text,
        final(store)@.cells == old(store)@.cells + spec_list(
            old(store)@.cells.len() as int,
            args.deep_view(),
        ).0,
        r@ == spec_list(old(store)@.cells.len() as int, args.deep_view()).1,
{
    let ghost xs = args.deep_view();
    let ghost start = store@.cells;
    let ghost text = store@.text;
    let mut l = Value::Nil;
    let mut i: usize = args.len();
    assert(xs.subrange(i as int, xs.len() as int) =~= Seq::<ValueView>::empty());
    while i > 0
        invariant
            i <= args.len(),
            xs == args.deep_view(),
            start.len() + 2 * args.len() <= usize::MAX,
            store@.cells.len() == start.len() + 2 * (args.len() - i),
            store@.cells.subrange(0, start.len() as int) == start,
            store@.text == text,
            is_list(store@.cells, l@, xs.subrange(i as int, xs.len() as int)),
            store@.cells == start + spec_list(start.len() as int, xs.subrange(i as int, xs.len() as int)).0,
            l@ == spec_list(start.len() as int, xs.subrange(i as int, xs.len() as int)).1,
        decreases i,
    {
        let x = copy_value(&args[i - 1]);
        let ghost before = store@.cells;
        let ghost lv = l@;
        let head: usize = store.store(x);
        let tail: usize = store.store(l);
        proof {
            lemma_is_list_extend(before, seq![x@, lv], lv, xs.subrange(i as int, xs.len() as int));
            assert(before + seq![x@, lv] =~= store@.cells);
            assert(xs.subrange(i - 1, xs.len() as int).drop_first() =~= xs.subrange(
                i as int,
                xs.len() as int,
            ));
            assert(store@.cells.subrange(0, start.len() as int) =~= before.subrange(0, start.len() as int));
            let rest = spec_list(start.len() as int, xs.subrange(i as int, xs.len() as int));
            assert(xs.subrange(i - 1, xs.len() as int)[0] == x@);
            assert(store@.cells =~= start + (rest.0 + seq![x@, lv]));
        }
        l = Value::Cons(head, tail);
        i = i - 1;
    }
    assert(xs.subrange(0, xs.len() as int) =~= xs);
    assert(start + Seq::<ValueView>::empty() =~= start);
    l
}

/// One entry of a directory listing: a pair of the entry's path, a string of the
/// store, and its kind, a symbol.
pub open spec fn is_dir_entry(st: StoreView, v: ValueView, path: Seq<char>, kind: Seq<char>) -> bool {
    match v {
        ValueView::Cons(h, t) => h < st.cells.len() && t < st.cells.len() && st.cells[t as int]
            == ValueView::Symbol(kind) && match st.cells[h as int] {
            ValueView::String(a, l) => valid_str(st.text, a as int, l as int) && str_at(
                st.text,
                a as int,
                l as int,
            ) == path,
            _ => false,
        },
        _ => false,
    }
}

/// An entry of a listing stays one when more cells are stored.
proof fn lemma_dir_entry_more_cells(st: StoreView, cells: Seq<ValueView>, v: ValueView, path: Seq<char>, kind: Seq<char>)
    requires
        is_dir_entry(st, v, path, kind),
        cells.len() >= st.cells.len(),
        cells.subrange(0, st.cells.len() as int) == st.cells,
    ensures
        is_dir_entry(StoreView { cells, text: st.text }, v, path, kind),
{
    let h = v->Cons_0;
    let t = v->Cons_1;
    assert(cells[h as int] == cells.subrange(0, st.cells.len() as int)[h as int]);
    assert(cells[t as int] == cells.subrange(0, st.cells.len() as int)[t as int]);
}

/// An entry of a listing stays one when another string is stored.
proof fn lemma_dir_entry_more_text(st: StoreView, more: Seq<char>, v: ValueView, path: Seq<char>, kind: Seq<char>)
    requires
        is_dir_entry(st, v, path, kind),
        valid_utf8(st.text),
    ensures
        is_dir_entry(StoreView { cells: st.cells, text: st.text + encode_utf8(more) }, v, path, kind),
{
    let h = v->Cons_0;
    match st.cells[h as int] {
        ValueView::String(a, l) => lemma_str_kept(st.text, more, a as int, l as int),
        _ => {},
    }
}

/// The listing that the `read_dir` intrinsic gives for a directory's entries, each a
/// path and its kind (`dir`, `symlink` or `file`): a list of pairs of the path, as a
/// string, and the kind, as a symbol. What was stored before is kept.
pub fn dir_listing(store: &mut Store, entries: &Vec<(String, String)>) -> (r: Value)
    requires
        old(store)@.cells.len() + 4 * entries.len() <= usize::MAX,
    ensures
        exists|xs: Seq<ValueView>|
            is_list(final(store)@.cells, r@, xs) && xs.len() == entries.len() && forall|i: int|
                0 <= i < xs.len() ==> is_dir_entry(
                    final(store)@,
                    #[trigger] xs[i],
                    entries@[i].0@,
                    entries@[i].1@,
                ),
        final(store)@.cells.len() >= old(store)@.cells.len(),
        final(store)@.cells.subrange(0, old(store)@.cells.len() as int) == old(store)@.cells,
        final(store)@.text.len() >= old(store)@.text.len(),
        final(store)@.text.subrange(0, old(store)@.text.len() as int) == old(store)@.text,
{
    let ghost start = store@;
    let mut items: Vec<Value> = Vec::new();
    let mut i: usize = 0;
    while i < entries.len()
        invariant
            i <= entries.len(),
            items.len() == i,
            start == old(store)@,
            start.cells.len() + 4 * entries.len() <= usize::MAX,
            store@.cells.len() == start.cells.len() + 2 * i,
            store@.cells.subrange(0, start.cells.len() as int) == start.cells,
            store@.text.len() >= start.text.len(),
            store@.text.subrange(0, start.text.len() as int) == start.text,
            forall|j: int|
                0 <= j < i ==> is_dir_entry(
                    store@,
                    #[trigger] items.deep_view()[j],
                    entries@[j].0@,
                    entries@[j].1@,
                ),
        decreases entries.len() - i,
    {
        let ghost s0 = store@;
        proof {
            store.lemma_text_valid();
        }
        let (a, l) = store.store_str(entries[i].0.as_str());
        let ghost s1 = store@;
        proof {
            assert forall|j: int| 0 <= j < i implies is_dir_entry(
                s1,
                #[trigger] items.deep_view()[j],
                entries@[j].0@,
                entries@[j].1@,
            ) by {
                lemma_dir_entry_more_text(s0, entries@[i as int].0@, items.deep_view()[j], entries@[j].0@, entries@[j].1@);
            }
        }
        let item = cons(store, Value::String(a, l), Value::Symbol(entries[i].1.clone()));
        let ghost s2 = store@;
        let ghost prev = items.deep_view();
        items.push(item);
        proof {
            assert(items.deep_view() =~= prev.push(item@));
            assert(s2.cells.subrange(0, s1.cells.len() as int) =~= s1.cells);
            assert forall|j: int| 0 <= j <= i implies is_dir_entry(
                s2,
                #[trigger] items.deep_view()[j],
                entries@[j].0@,
                entries@[j].1@,
            ) by {
                if j < i {
                    lemma_dir_entry_more_cells(s1, s2.cells, items.deep_view()[j], entries@[j].0@, entries@[j].1@);
                    assert(items.deep_view()[j] == prev[j]);
                }
            }
            assert(s2.cells.subrange(0, start.cells.len() as int) =~= s0.cells.subrange(0, start.cells.len() as int));
            assert(s1.text.subrange(0, start.text.len() as int) =~= s0.text.subrange(0, start.text.len() as int));
        }
        i = i + 1;
    }
    let ghost s3 = store@;
    let r = list(store, &items);
    proof {
        let xs = items.deep_view();
        assert forall|j: int| 0 <= j < xs.len() implies is_dir_entry(
            store@,
            #[trigger] xs[j],
            entries@[j].0@,
            entries@[j].1@,
        ) by {
            lemma_dir_entry_more_cells(s3, store@.cells, xs[j], entries@[j].0@, entries@[j].1@);
            assert(store@ == StoreView { cells: store@.cells, text: s3.text });
        }
        assert(store@.cells.subrange(0, start.cells.len() as int) =~= s3.cells.subrange(0, start.cells.len() as int));
    }
    r
}

/// Whether a value is a number: a byte or a fixnum.
pub open spec fn is_number(v: ValueView) -> bool {
    v is Byte || v is Fixnum
}

/// The integer that a number stands for.
pub open spec fn number_value(v: ValueView) -> int {
    match v {
        ValueView::Byte(b) => b as int,
        ValueView::Fixnum(n) => n as int,
        _ => 0,
    }
}

/// Whether two numbers are equal, whether bytes or fixnums.
pub fn eq_num(l: &Value, r: &Value) -> (res: Value)
    requires
        is_number(l@),
        is_number(r@),
    ensures
        res@ == spec_boolify(number_value(l@) == number_value(r@)),
{
    boolify(
        match (l, r) {
            (Value::Byte(l), Value::Byte(r)) => *l == *r,
            (Value::Byte(l), Value::Fixnum(r)) => *l as isize == *r,
            (Value::Fixnum(l), Value::Byte(r)) => *l == *r as isize,
            (Value::Fixnum(l), Value::Fixnum(r)) => *l == *r,
            _ => false,
        },
    )
}

/// Whether two values are the same value.
pub fn eq(a: &Value, b: &Value) -> (r: Value)
    ensures
        r@ == spec_boolify(a@ == b@),
{
    boolify(values_equal(a, b))
}

/// Two numbers of one kind whose result `f` fits that kind.
pub open spec fn arith_ok(l: ValueView, r: ValueView, f: spec_fn(int, int) -> int) -> bool {
    match (l, r) {
        (ValueView::Byte(a), ValueView::Byte(b)) => 0 <= f(a as int, b as int) <= u8::MAX,
        (ValueView::Fixnum(a), ValueView::Fixnum(b)) => isize::MIN <= f(a as int, b as int)
            <= isize::MAX,
        _ => false,
    }
}

/// The result `f` of two numbers of one kind, of that kind.
pub open spec fn spec_arith(l: ValueView, r: ValueView, f: spec_fn(int, int) -> int) -> ValueView {
    match (l, r) {
        (ValueView::Byte(a), ValueView::Byte(b)) => ValueView::Byte(f(a as int, b as int) as u8),
        (ValueView::Fixnum(a), ValueView::Fixnum(b)) => ValueView::Fixnum(
            f(a as int, b as int) as isize,
        ),
        _ => ValueView::Nil,
    }
}

/// Adding, subtracting and multiplying two bytes, or two fixnums, applies the
/// operation to the left operand and then the right one, and gives a number of the
/// same kind, wherever the result fits that kind.
pub proof fn lemma_arith_numbers(a: u8, b: u8, x: isize, y: isize)
    ensures
        a + b <= u8::MAX ==> spec_add(ValueView::Byte(a), ValueView::Byte(b)) is Byte && spec_add(
            ValueView::Byte(a),
            ValueView::Byte(b),
        )->Byte_0 == a + b,
        a >= b ==> spec_sub(ValueView::Byte(a), ValueView::Byte(b)) is Byte && spec_sub(
            ValueView::Byte(a),
            ValueView::Byte(b),
        )->Byte_0 + b == a,
        a * b <= u8::MAX ==> spec_mul(ValueView::Byte(a), ValueView::Byte(b)) is Byte && spec_mul(
            ValueView::Byte(a),
            ValueView::Byte(b),
        )->Byte_0 == a * b,
        isize::MIN <= x + y <= isize::MAX ==> spec_add(ValueView::Fixnum(x), ValueView::Fixnum(y))
            is Fixnum && spec_add(ValueView::Fixnum(x), ValueView::Fixnum(y))->Fixnum_0 == x + y,
        isize::MIN <= x - y <= isize::MAX ==> spec_sub(ValueView::Fixnum(x), ValueView::Fixnum(y))
            is Fixnum && spec_sub(ValueView::Fixnum(x), ValueView::Fixnum(y))->Fixnum_0 + y == x,
        isize::MIN <= x * y <= isize::MAX ==> spec_mul(ValueView::Fixnum(x), ValueView::Fixnum(y))
            is Fixnum && spec_mul(ValueView::Fixnum(x), ValueView::Fixnum(y))->Fixnum_0 == x * y,
{
}

/// The sum of two numbers of one kind.
pub open spec fn spec_add(l: ValueView, r: ValueView) -> ValueView {
    spec_arith(l, r, |a: int, b: int| a + b)
}

/// The difference of two numbers of one kind: the left less the right.
pub open spec fn spec_sub(l: ValueView, r: ValueView) -> ValueView {
    spec_arith(l, r, |a: int, b: int| a - b)
}

/// The product of two numbers of one kind.
pub open spec fn spec_mul(l: ValueView, r: ValueView) -> ValueView {
    spec_arith(l, r, |a: int, b: int| a * b)
}

/// The sum of two bytes or of two fixnums.
pub fn add(l: &Value, r: &Value) -> (res: Value)
    requires
        arith_ok(l@, r@, |a: int, b: int| a + b),
    ensures
        res@ == spec_add(l@, r@),
{
    match (l, r) {
        (Value::Byte(l), Value::Byte(r)) => Value::Byte(*l + *r),
        (Value::Fixnum(l), Value::Fixnum(r)) => Value::Fixnum(*l + *r),
        _ => Value::Nil,
    }
}

/// The product of two bytes or of two fixnums.
pub fn mul(l: &Value, r: &Value) -> (res: Value)
    requires
        arith_ok(l@, r@, |a: int, b: int| a * b),
    ensures
        res@ == spec_mul(l@, r@),
{
    match (l, r) {
        (Value::Byte(l), Value::Byte(r)) => Value::Byte(*l * *r),
        (Value::Fixnum(l), Value::Fixnum(r)) => Value::Fixnum(*l * *r),
        _ => Value::Nil,
    }
}

/// The difference of two bytes or of two fixnums.
pub fn sub(l: &Value, r: &Value) -> (res: Value)
    requires
        arith_ok(l@, r@, |a: int, b: int| a - b),
    ensures
        res@ == spec_sub(l@, r@),
{
    match (l, r) {
        (Value::Byte(l), Value::Byte(r)) => Value::Byte(*l - *r),
        (Value::Fixnum(l), Value::Fixnum(r)) => Value::Fixnum(*l - *r),
        _ => Value::Nil,
    }
}

/// Whether the value is a byte.
pub fn is_byte(x: &Value) -> (r: Value)
    ensures
        r@ == spec_boolify(x@ is Byte),
{
    boolify(matches!(x, Value::Byte(_)))
}

/// Whether the value is a byte string.
pub fn is_bytes(x: &Value) -> (r: Value)
    ensures
        r@ == spec_boolify(x@ is Bytes),
{
    boolify(matches!(x, Value::Bytes(_, _)))
}

/// Whether the value is a pair.
pub fn is_cons(x: &Value) -> (r: Value)
    ensures
        r@ == spec_boolify(x@ is Cons),
{
    boolify(matches!(x, Value::Cons(_, _)))
}

/// Whether the value is a fixnum.
pub fn is_fixnum(x: &Value) -> (r: Value)
    ensures
        r@ == spec_boolify(x@ is Fixnum),
{
    boolify(matches!(x, Value::Fixnum(_)))
}

/// Whether the value is a function: a closure or an intrinsic.
pub fn is_function(x: &Value) -> (r: Value)
    ensures
        r@ == spec_boolify(x@ is Closure || x@ is Intrinsic),
{
    boolify(matches!(x, Value::Closure(_)) || matches!(x, Value::Intrinsic(_)))
}

/// Whether the value is nil.
pub fn is_nil(x: &Value) -> (r: Value)
    ensures
        r@ == spec_boolify(x@ is Nil),
{
    boolify(matches!(x, Value::Nil))
}

/// Whether the value is a string.
pub fn is_string(x: &Value) -> (r: Value)
    ensures
        r@ == spec_boolify(x@ is String),
{
    boolify(matches!(x, Value::String(_, _)))
}

/// Whether the value is a symbol.
pub fn is_symbol(x: &Value) -> (r: Value)
    ensures
        r@ == spec_boolify(x@ is Symbol),
{
    boolify(matches!(x, Value::Symbol(_)))
}

/// Whether the value is a vector.
pub fn is_vector(x: &Value) -> (r: Value)
    ensures
        r@ == spec_boolify(x@ is Vector),
{
    boolify(matches!(x, Value::Vector(_, _)))
}

/// The length of a vector, as a fixnum.
pub fn vector_length(s: &Value) -> (r: Value)
    requires
        s@ is Vector,
    ensures
        r@ == ValueView::Fixnum(s@->Vector_1 as isize),
{
    match s {
        Value::Vector(_, l) => Value::Fixnum(*l as isize),
        _ => Value::Nil,
    }
}

/// The element of a vector at index `n`.
pub fn vector_nth(store: &Store, n: &Value, s: &Value) -> (r: Value)
    requires
        n@ is Fixnum,
        s@ is Vector,
        (n@->Fixnum_0 as usize) < s@->Vector_1,
        s@->Vector_0 + (n@->Fixnum_0 as usize) < store@.cells.len(),
    ensures
        r@ == store@.cells[s@->Vector_0 + (n@->Fixnum_0 as usize)],
{
    match (n, s) {
        (Value::Fixnum(k), Value::Vector(a, _)) => {
            proof {
                store.lemma_len_fits();
            }
            let i: usize = *k as usize;
            store.get(*a + i)
        },
        _ => Value::Nil,
    }
}

/// A new vector at the end of the store holding the elements of `l`, then those of
/// `r`.
pub fn vector_append(store: &mut Store, l: &Value, r: &Value) -> (res: Value)
    requires
        l@ is Vector,
        r@ is Vector,
        l@->Vector_0 + l@->Vector_1 <= old(store)@.cells.len(),
        r@->Vector_0 + r@->Vector_1 <= old(store)@.cells.len(),
        old(store)@.cells.len() + l@->Vector_1 + r@->Vector_1 <= usize::MAX,
    ensures
        res@ == ValueView::Vector(old(store)@.cells.len() as usize, (l@->Vector_1 + r@->Vector_1) as usize),
        final(store)@.text == old(store)@.text,
        final(store)@.cells == old(store)@.cells + old(store)@.cells.subrange(
            l@->Vector_0 as int,
            l@->Vector_0 + l@->Vector_1,
        ) + old(store)@.cells.subrange(r@->Vector_0 as int, r@->Vector_0 + r@->Vector_1),
{
    match (l, r) {
        (Value::Vector(la, ll), Value::Vector(ra, rl)) => {
            let mut vals = store.get_vec(*la, *ll);
            let mut rest = store.get_vec(*ra, *rl);
            let ghost lv = vals.deep_view();
            let ghost rv = rest.deep_view();
            vals.append(&mut rest);
            assert(vals.deep_view() =~= lv + rv);
            let (a, n) = store.store_vec(&vals);
            Value::Vector(a, n)
        },
        _ => Value::Nil,
    }
}

/// The part of a sequence between `start` and `end`, as a vector at the start's
/// address. The sequence is taken from a string value.
pub fn vector_slice(start: &Value, end: &Value, s: &Value) -> (r: Value)
    requires
        start@ is Fixnum,
        end@ is Fixnum,
        s@ is String,
        (start@->Fixnum_0 as usize) < s@->String_1,
        (end@->Fixnum_0 as usize) < s@->String_1,
        (start@->Fixnum_0 as usize) <= (end@->Fixnum_0 as usize),
        s@->String_0 + (start@->Fixnum_0 as usize) <= usize::MAX,
    ensures
        r@ == ValueView::Vector(
            (s@->String_0 + (start@->Fixnum_0 as usize)) as usize,
            ((end@->Fixnum_0 as usize) - (start@->Fixnum_0 as usize)) as usize,
        ),
{
    match (start, end, s) {
        (Value::Fixnum(i), Value::Fixnum(j), Value::String(a, _)) => {
            let i: usize = *i as usize;
            let j: usize = *j as usize;
            Value::Vector(*a + i, j - i)
        },
        _ => Value::Nil,
    }
}

/// The value is a string whose bytes hold a string in the text.
pub open spec fn holds_string(text: Seq<u8>, v: ValueView) -> bool {
    v is String && valid_str(text, v->String_0 as int, v->String_1 as int)
}

/// The string that a string value holds.
pub open spec fn string_value(text: Seq<u8>, v: ValueView) -> Seq<char> {
    str_at(text, v->String_0 as int, v->String_1 as int)
}

/// The number of characters of a string, as a fixnum.
pub fn string_length(store: &Store, s: &Value) -> (r: Value)
    requires
        holds_string(store@.text, s@),
    ensures
        r@ == ValueView::Fixnum(string_value(store@.text, s@).len() as isize),
{
    match s {
        Value::String(a, l) => {
            let st = store.get_str(*a, *l);
            let n: usize = st.unicode_len();
            Value::Fixnum(n as isize)
        },
        _ => Value::Nil,
    }
}

/// The symbol whose name is a string.
pub fn symbol_of_string(store: &Store, s: &Value) -> (r: Value)
    requires
        holds_string(store@.text, s@),
    ensures
        r@ == ValueView::Symbol(string_value(store@.text, s@)),
{
    match s {
        Value::String(a, l) => {
            let st = store.get_str(*a, *l);
            Value::Symbol(st.to_owned())
        },
        _ => Value::Nil,
    }
}

/// Where the bytes of the first string end just where the second's begin, their
/// concatenation is read in place.
proof fn lemma_adjacent_strings(text: Seq<u8>, la: int, ll: int, rl: int)
    requires
        valid_utf8(text),
        valid_str(text, la, ll),
        valid_str(text, la + ll, rl),
    ensures
        valid_str(text, la, ll + rl),
        str_at(text, la, ll + rl) == str_at(text, la, ll) + str_at(text, la + ll, rl),
{
    lemma_region(text, la, la + ll, la + ll + rl);
    let whole = text.subrange(la, la + ll + rl);
    decode_utf8_split(whole, ll);
    assert(whole.subrange(0, ll) =~= text.subrange(la, la + ll));
    assert(whole.subrange(ll, whole.len() as int) =~= text.subrange(la + ll, la + ll + rl));
}

/// The concatenation of two strings. Where the first's bytes end just where the
/// second's begin, the result is read in place; otherwise the concatenation is
/// stored at the end of the text.
pub fn string_append(store: &mut Store, l: &Value, r: &Value) -> (res: Value)
    requires
        holds_string(old(store)@.text, l@),
        holds_string(old(store)@.text, r@),
        l@->String_0 + l@->String_1 <= usize::MAX,
        l@->String_1 + r@->String_1 <= usize::MAX,
    ensures
        final(store)@.cells == old(store)@.cells,
        l@->String_0 + l@->String_1 == r@->String_0 ==> final(store)@ == old(store)@ && res@
            == ValueView::String(l@->String_0, (l@->String_1 + r@->String_1) as usize),
        l@->String_0 + l@->String_1 != r@->String_0 ==> final(store)@.text == old(store)@.text
            + old(store)@.text.subrange(l@->String_0 as int, l@->String_0 + l@->String_1)
            + old(store)@.text.subrange(r@->String_0 as int, r@->String_0 + r@->String_1) && res@
            == ValueView::String(
            old(store)@.text.len() as usize,
            (l@->String_1 + r@->String_1) as usize,
        ),
        holds_string(final(store)@.text, res@),
        string_value(final(store)@.text, res@) == string_value(old(store)@.text, l@) + string_value(
            old(store)@.text,
            r@,
        ),
{
    proof {
        store.lemma_text_valid();
    }
    match (l, r) {
        (Value::String(la, ll), Value::String(ra, rl)) => {
            if *la + *ll == *ra {
                proof {
                    lemma_adjacent_strings(store@.text, *la as int, *ll as int, *rl as int);
                }
                Value::String(*la, *ll + *rl)
            } else {
                let ghost text = store@.text;
                let mut s = String::new();
                let ls = store.get_str(*la, *ll);
                let rs = store.get_str(*ra, *rl);
                s.append(ls);
                s.append(rs);
                proof {
                    lemma_encode_utf8_concat(ls@, rs@);
                    assert(s@ == ls@ + rs@);
                    crate::value::lemma_stored_string_reads_back(text, s@);
                }
                let whole = s.as_str();
                assert(whole.spec_bytes() == encode_utf8(s@));
                let (addr, len) = store.store_str(whole);
                Value::String(addr, len)
            }
        },
        _ => Value::Nil,
    }
}

/// The byte offset at which character `k` of a string begins.
pub open spec fn char_offset(chars: Seq<char>, k: int) -> int {
    encode_utf8(chars.take(k)).len() as int
}

/// The part of a string between characters `start` and `end`, as a string whose
/// address is the byte offset of `start` within the string and whose length is the
/// bytes between the two characters.
pub fn string_slice(store: &Store, start: &Value, end: &Value, s: &Value) -> (r: Value)
    requires
        start@ is Fixnum,
        end@ is Fixnum,
        holds_string(store@.text, s@),
        (start@->Fixnum_0 as usize) < string_value(store@.text, s@).len(),
        (end@->Fixnum_0 as usize) < string_value(store@.text, s@).len(),
        (start@->Fixnum_0 as usize) <= (end@->Fixnum_0 as usize),
    ensures
        r@ == ValueView::String(
            char_offset(string_value(store@.text, s@), (start@->Fixnum_0 as usize) as int) as usize,
            (char_offset(string_value(store@.text, s@), (end@->Fixnum_0 as usize) as int)
                - char_offset(string_value(store@.text, s@), (start@->Fixnum_0 as usize) as int)) as usize,
        ),
{
    match (start, end, s) {
        (Value::Fixnum(i), Value::Fixnum(j), Value::String(a, l)) => {
            let i: usize = *i as usize;
            let j: usize = *j as usize;
            let st = store.get_str(*a, *l);
            let ghost cs = st@;
            let before_start = st.substring_char(0, i);
            let before_end = st.substring_char(0, j);
            let bs: usize = before_start.as_bytes().len();
            let be: usize = before_end.as_bytes().len();
            proof {
                assert(cs.take(j as int) =~= cs.take(i as int) + cs.subrange(i as int, j as int));
                lemma_encode_utf8_concat(cs.take(i as int), cs.subrange(i as int, j as int));
                assert(before_start@ =~= cs.take(i as int));
                assert(before_end@ =~= cs.take(j as int));
            }
            Value::String(bs, be - bs)
        },
        _ => Value::Nil,
    }
}

/// The modules of the `intrinsics` package, each with the intrinsics it declares.
pub open spec fn spec_intrinsics_decls() -> Seq<(Seq<char>, Seq<Seq<char>>)> {
    seq![
        (""@, seq!["car"@, "cdr"@, "cons"@, "eq_num"@, "eq"@, "equals"@, "list"@, "panic"@]),
        ("convert"@, seq!["symbol_of_string"@]),
        ("io"@, seq!["print"@, "println"@, "write"@, "writeln"@, "write_bytes"@]),
        ("math"@, seq!["add"@, "mul"@, "sub"@]),
        ("oftb"@, seq!["read_dir"@, "read_file"@]),
        ("strings"@, seq!["append"@, "length"@, "slice"@]),
        ("types"@, seq!["is_byte"@, "is_bytes"@, "is_cons"@, "is_fixnum"@, "is_function"@, "is_nil"@, "is_string"@, "is_symbol"@, "is_vector"@]),
        ("vector"@, seq!["append"@, "length"@, "nth"@, "slice"@]),
    ]
}

/// No two modules of the intrinsics have one name.
proof fn lemma_intrinsics_modules_distinct()
    ensures
        seq![""@, "convert"@, "io"@, "math"@, "oftb"@, "strings"@, "types"@, "vector"@].no_duplicates(),
{
    reveal_strlit("");
    reveal_strlit("convert");
    reveal_strlit("io");
    reveal_strlit("math");
    reveal_strlit("oftb");
    reveal_strlit("strings");
    reveal_strlit("types");
    reveal_strlit("vector");
    let s: Seq<Seq<char>> = seq![""@, "convert"@, "io"@, "math"@, "oftb"@, "strings"@, "types"@, "vector"@];
    assert(s[0] == ""@);
    assert(s[1] == "convert"@);
    assert(s[2] == "io"@);
    assert(s[3] == "math"@);
    assert(s[4] == "oftb"@);
    assert(s[5] == "strings"@);
    assert(s[6] == "types"@);
    assert(s[7] == "vector"@);
    assert(""@.len() != "convert"@.len());
    assert(""@.len() != "io"@.len());
    assert(""@.len() != "math"@.len());
    assert(""@.len() != "oftb"@.len());
    assert(""@.len() != "strings"@.len());
    assert(""@.len() != "types"@.len());
    assert(""@.len() != "vector"@.len());
    assert("convert"@.len() != "io"@.len());
    assert("convert"@.len() != "math"@.len());
    assert("convert"@.len() != "oftb"@.len());
    assert("convert"@[0] != "strings"@[0]);
    assert("convert"@.len() != "types"@.len());
    assert("convert"@.len() != "vector"@.len());
    assert("io"@.len() != "math"@.len());
    assert("io"@.len() != "oftb"@.len());
    assert("io"@.len() != "strings"@.len());
    assert("io"@.len() != "types"@.len());
    assert("io"@.len() != "vector"@.len());
    assert("math"@[0] != "oftb"@[0]);
    assert("math"@.len() != "strings"@.len());
    assert("math"@.len() != "types"@.len());
    assert("math"@.len() != "vector"@.len());
    assert("oftb"@.len() != "strings"@.len());
    assert("oftb"@.len() != "types"@.len());
    assert("oftb"@.len() != "vector"@.len());
    assert("strings"@.len() != "types"@.len());
    assert("strings"@.len() != "vector"@.len());
    assert("types"@.len() != "vector"@.len());
    assert forall|a: int, b: int| 0 <= a < s.len() && 0 <= b < s.len() && a != b implies s[a] != s[b] by {
        assert(a == 0 || a == 1 || a == 2 || a == 3 || a == 4 || a == 5 || a == 6 || a == 7);
        assert(b == 0 || b == 1 || b == 2 || b == 3 || b == 4 || b == 5 || b == 6 || b == 7);
    }
}

/// No module of the intrinsics declares a name twice (the root module).
proof fn lemma_intrinsics_decls_distinct_0()
    ensures
        seq!["car"@, "cdr"@, "cons"@, "eq_num"@, "eq"@, "equals"@, "list"@, "panic"@].no_duplicates(),
{
    reveal_strlit("car");
    reveal_strlit("cdr");
    reveal_strlit("cons");
    reveal_strlit("eq");
    reveal_strlit("eq_num");
    reveal_strlit("equals");
    reveal_strlit("list");
    reveal_strlit("panic");
    let s: Seq<Seq<char>> = seq!["car"@, "cdr"@, "cons"@, "eq_num"@, "eq"@, "equals"@, "list"@, "panic"@];
    assert(s[0] == "car"@);
    assert(s[1] == "cdr"@);
    assert(s[2] == "cons"@);
    assert(s[3] == "eq_num"@);
    assert(s[4] == "eq"@);
    assert(s[5] == "equals"@);
    assert(s[6] == "list"@);
    assert(s[7] == "panic"@);
    assert("car"@[1] != "cdr"@[1]);
    assert("car"@.len() != "cons"@.len());
    assert("car"@.len() != "eq_num"@.len());
    assert("car"@.len() != "eq"@.len());
    assert("car"@.len() != "equals"@.len());
    assert("car"@.len() != "list"@.len());
    assert("car"@.len() != "panic"@.len());
    assert("cdr"@.len() != "cons"@.len());
    assert("cdr"@.len() != "eq_num"@.len());
    assert("cdr"@.len() != "eq"@.len());
    assert("cdr"@.len() != "equals"@.len());
    assert("cdr"@.len() != "list"@.len());
    assert("cdr"@.len() != "panic"@.len());
    assert("cons"@.len() != "eq_num"@.len());
    assert("cons"@.len() != "eq"@.len());
    assert("cons"@.len() != "equals"@.len());
    assert("cons"@[0] != "list"@[0]);
    assert("cons"@.len() != "panic"@.len());
    assert("eq_num"@.len() != "eq"@.len());
    assert("eq_num"@[2] != "equals"@[2]);
    assert("eq_num"@.len() != "list"@.len());
    assert("eq_num"@.len() != "panic"@.len());
    assert("eq"@.len() != "equals"@.len());
    assert("eq"@.len() != "list"@.len());
    assert("eq"@.len() != "panic"@.len());
    assert("equals"@.len() != "list"@.len());
    assert("equals"@.len() != "panic"@.len());
    assert("list"@.len() != "panic"@.len());
    assert forall|a: int, b: int| 0 <= a < s.len() && 0 <= b < s.len() && a != b implies s[a] != s[b] by {
        assert(a == 0 || a == 1 || a == 2 || a == 3 || a == 4 || a == 5 || a == 6 || a == 7);
        assert(b == 0 || b == 1 || b == 2 || b == 3 || b == 4 || b == 5 || b == 6 || b == 7);
    }
}

/// No module of the intrinsics declares a name twice (module `convert`).
proof fn lemma_intrinsics_decls_distinct_1()
    ensures
        seq!["symbol_of_string"@].no_duplicates(),
{
    reveal_strlit("symbol_of_string");
    let s: Seq<Seq<char>> = seq!["symbol_of_string"@];
    assert(s[0] == "symbol_of_string"@);
    assert forall|a: int, b: int| 0 <= a < s.len() && 0 <= b < s.len() && a != b implies s[a] != s[b] by {
        assert(a == 0);
        assert(b == 0);
    }
}

/// No module of the intrinsics declares a name twice (module `io`).
proof fn lemma_intrinsics_decls_distinct_2()
    ensures
        seq!["print"@, "println"@, "write"@, "writeln"@, "write_bytes"@].no_duplicates(),
{
    reveal_strlit("print");
    reveal_strlit("println");
    reveal_strlit("write");
    reveal_strlit("write_bytes");
    reveal_strlit("writeln");
    let s: Seq<Seq<char>> = seq!["print"@, "println"@, "write"@, "writeln"@, "write_bytes"@];
    assert(s[0] == "print"@);
    assert(s[1] == "println"@);
    assert(s[2] == "write"@);
    assert(s[3] == "writeln"@);
    assert(s[4] == "write_bytes"@);
    assert("print"@.len() != "println"@.len());
    assert("print"@[0] != "write"@[0]);
    assert("print"@.len() != "writeln"@.len());
    assert("print"@.len() != "write_bytes"@.len());
    assert("println"@.len() != "write"@.len());
    assert("println"@[0] != "writeln"@[0]);
    assert("println"@.len() != "write_bytes"@.len());
    assert("write"@.len() != "writeln"@.len());
    assert("write"@.len() != "write_bytes"@.len());
    assert("writeln"@.len() != "write_bytes"@.len());
    assert forall|a: int, b: int| 0 <= a < s.len() && 0 <= b < s.len() && a != b implies s[a] != s[b] by {
        assert(a == 0 || a == 1 || a == 2 || a == 3 || a == 4);
        assert(b == 0 || b == 1 || b == 2 || b == 3 || b == 4);
    }
}

/// No module of the intrinsics declares a name twice (module `math`).
proof fn lemma_intrinsics_decls_distinct_3()
    ensures
        seq!["add"@, "mul"@, "sub"@].no_duplicates(),
{
    reveal_strlit("add");
    reveal_strlit("mul");
    reveal_strlit("sub");
    let s: Seq<Seq<char>> = seq!["add"@, "mul"@, "sub"@];
    assert(s[0] == "add"@);
    assert(s[1] == "mul"@);
    assert(s[2] == "sub"@);
    assert("add"@[0] != "mul"@[0]);
    assert("add"@[0] != "sub"@[0]);
    assert("mul"@[0] != "sub"@[0]);
    assert forall|a: int, b: int| 0 <= a < s.len() && 0 <= b < s.len() && a != b implies s[a] != s[b] by {
        assert(a == 0 || a == 1 || a == 2);
        assert(b == 0 || b == 1 || b == 2);
    }
}

/// No module of the intrinsics declares a name twice (module `oftb`).
proof fn lemma_intrinsics_decls_distinct_4()
    ensures
        seq!["read_dir"@, "read_file"@].no_duplicates(),
{
    reveal_strlit("read_dir");
    reveal_strlit("read_file");
    let s: Seq<Seq<char>> = seq!["read_dir"@, "read_file"@];
    assert(s[0] == "read_dir"@);
    assert(s[1] == "read_file"@);
    assert("read_dir"@.len() != "read_file"@.len());
    assert forall|a: int, b: int| 0 <= a < s.len() && 0 <= b < s.len() && a != b implies s[a] != s[b] by {
        assert(a == 0 || a == 1);
        assert(b == 0 || b == 1);
    }
}

/// No module of the intrinsics declares a name twice (module `strings`).
proof fn lemma_intrinsics_decls_distinct_5()
    ensures
        seq!["append"@, "length"@, "slice"@].no_duplicates(),
{
    reveal_strlit("append");
    reveal_strlit("length");
    reveal_strlit("slice");
    let s: Seq<Seq<char>> = seq!["append"@, "length"@, "slice"@];
    assert(s[0] == "append"@);
    assert(s[1] == "length"@);
    assert(s[2] == "slice"@);
    assert("append"@[0] != "length"@[0]);
    assert("append"@.len() != "slice"@.len());
    assert("length"@.len() != "slice"@.len());
    assert forall|a: int, b: int| 0 <= a < s.len() && 0 <= b < s.len() && a != b implies s[a] != s[b] by {
        assert(a == 0 || a == 1 || a == 2);
        assert(b == 0 || b == 1 || b == 2);
    }
}

/// No module of the intrinsics declares a name twice (module `types`).
proof fn lemma_intrinsics_decls_distinct_6()
    ensures
        seq!["is_byte"@, "is_bytes"@, "is_cons"@, "is_fixnum"@, "is_function"@, "is_nil"@, "is_string"@, "is_symbol"@, "is_vector"@].no_duplicates(),
{
    reveal_strlit("is_byte");
    reveal_strlit("is_bytes");
    reveal_strlit("is_cons");
    reveal_strlit("is_fixnum");
    reveal_strlit("is_function");
    reveal_strlit("is_nil");
    reveal_strlit("is_string");
    reveal_strlit("is_symbol");
    reveal_strlit("is_vector");
    let s: Seq<Seq<char>> = seq!["is_byte"@, "is_bytes"@, "is_cons"@, "is_fixnum"@, "is_function"@, "is_nil"@, "is_string"@, "is_symbol"@, "is_vector"@];
    assert(s[0] == "is_byte"@);
    assert(s[1] == "is_bytes"@);
    assert(s[2] == "is_cons"@);
    assert(s[3] == "is_fixnum"@);
    assert(s[4] == "is_function"@);
    assert(s[5] == "is_nil"@);
    assert(s[6] == "is_string"@);
    assert(s[7] == "is_symbol"@);
    assert(s[8] == "is_vector"@);
    assert("is_byte"@.len() != "is_bytes"@.len());
    assert("is_byte"@[3] != "is_cons"@[3]);
    assert("is_byte"@.len() != "is_fixnum"@.len());
    assert("is_byte"@.len() != "is_function"@.len());
    assert("is_byte"@.len() != "is_nil"@.len());
    assert("is_byte"@.len() != "is_string"@.len());
    assert("is_byte"@.len() != "is_symbol"@.len());
    assert("is_byte"@.len() != "is_vector"@.len());
    assert("is_bytes"@.len() != "is_cons"@.len());
    assert("is_bytes"@.len() != "is_fixnum"@.len());
    assert("is_bytes"@.len() != "is_function"@.len());
    assert("is_bytes"@.len() != "is_nil"@.len());
    assert("is_bytes"@.len() != "is_string"@.len());
    assert("is_bytes"@.len() != "is_symbol"@.len());
    assert("is_bytes"@.len() != "is_vector"@.len());
    assert("is_cons"@.len() != "is_fixnum"@.len());
    assert("is_cons"@.len() != "is_function"@.len());
    assert("is_cons"@.len() != "is_nil"@.len());
    assert("is_cons"@.len() != "is_string"@.len());
    assert("is_cons"@.len() != "is_symbol"@.len());
    assert("is_cons"@.len() != "is_vector"@.len());
    assert("is_fixnum"@.len() != "is_function"@.len());
    assert("is_fixnum"@.len() != "is_nil"@.len());
    assert("is_fixnum"@[3] != "is_string"@[3]);
    assert("is_fixnum"@[3] != "is_symbol"@[3]);
    assert("is_fixnum"@[3] != "is_vector"@[3]);
    assert("is_function"@.len() != "is_nil"@.len());
    assert("is_function"@.len() != "is_string"@.len());
    assert("is_function"@.len() != "is_symbol"@.len());
    assert("is_function"@.len() != "is_vector"@.len());
    assert("is_nil"@.len() != "is_string"@.len());
    assert("is_nil"@.len() != "is_symbol"@.len());
    assert("is_nil"@.len() != "is_vector"@.len());
    assert("is_string"@[4] != "is_symbol"@[4]);
    assert("is_string"@[3] != "is_vector"@[3]);
    assert("is_symbol"@[3] != "is_vector"@[3]);
    assert forall|a: int, b: int| 0 <= a < s.len() && 0 <= b < s.len() && a != b implies s[a] != s[b] by {
        assert(a == 0 || a == 1 || a == 2 || a == 3 || a == 4 || a == 5 || a == 6 || a == 7 || a == 8);
        assert(b == 0 || b == 1 || b == 2 || b == 3 || b == 4 || b == 5 || b == 6 || b == 7 || b == 8);
    }
}

/// No module of the intrinsics declares a name twice (module `vector`).
proof fn lemma_intrinsics_decls_distinct_7()
    ensures
        seq!["append"@, "length"@, "nth"@, "slice"@].no_duplicates(),
{
    reveal_strlit("append");
    reveal_strlit("length");
    reveal_strlit("nth");
    reveal_strlit("slice");
    let s: Seq<Seq<char>> = seq!["append"@, "length"@, "nth"@, "slice"@];
    assert(s[0] == "append"@);
    assert(s[1] == "length"@);
    assert(s[2] == "nth"@);
    assert(s[3] == "slice"@);
    assert("append"@[0] != "length"@[0]);
    assert("append"@.len() != "nth"@.len());
    assert("append"@.len() != "slice"@.len());
    assert("length"@.len() != "nth"@.len());
    assert("length"@.len() != "slice"@.len());
    assert("nth"@.len() != "slice"@.len());
    assert forall|a: int, b: int| 0 <= a < s.len() && 0 <= b < s.len() && a != b implies s[a] != s[b] by {
        assert(a == 0 || a == 1 || a == 2 || a == 3);
        assert(b == 0 || b == 1 || b == 2 || b == 3);
    }
}

/// No module of the intrinsics has another's name, and none declares a name twice.
pub proof fn lemma_intrinsics_wf()
    ensures
        PackageView::Builtins(spec_intrinsics_decls()).wf(),
{
    lemma_intrinsics_modules_distinct();
    lemma_intrinsics_decls_distinct_0();
    lemma_intrinsics_decls_distinct_1();
    lemma_intrinsics_decls_distinct_2();
    lemma_intrinsics_decls_distinct_3();
    lemma_intrinsics_decls_distinct_4();
    lemma_intrinsics_decls_distinct_5();
    lemma_intrinsics_decls_distinct_6();
    lemma_intrinsics_decls_distinct_7();
    let d = spec_intrinsics_decls();
    let names: Seq<Seq<char>> = seq![""@, "convert"@, "io"@, "math"@, "oftb"@, "strings"@, "types"@, "vector"@];
    assert(d[0].0 == names[0]);
    assert(d[1].0 == names[1]);
    assert(d[2].0 == names[2]);
    assert(d[3].0 == names[3]);
    assert(d[4].0 == names[4]);
    assert(d[5].0 == names[5]);
    assert(d[6].0 == names[6]);
    assert(d[7].0 == names[7]);
    assert forall|i: int, j: int| 0 <= i < d.len() && 0 <= j < d.len() && i != j implies #[trigger] d[i].0 != #[trigger] d[j].0 by {
        assert(d[i].0 == names[i] && d[j].0 == names[j]);
    }
    assert forall|i: int| 0 <= i < d.len() implies (#[trigger] d[i]).1.no_duplicates() by {
        assert(i == 0 || i == 1 || i == 2 || i == 3 || i == 4 || i == 5 || i == 6 || i == 7);
    }
}

/// The name of the package of intrinsics.
pub open spec fn spec_intrinsics_name() -> Seq<char> {
    "intrinsics"@
}

/// The name of the package of intrinsics.
pub fn intrinsics_name() -> (r: String)
    ensures
        r@ == spec_intrinsics_name(),
{
    "intrinsics".to_owned()
}

/// The declarations of the package of intrinsics, as `Packages::add_builtins` takes
/// them.
pub fn intrinsics_decls() -> (r: Vec<Named<Vec<String>>>)
    ensures
        r.deep_view() == spec_intrinsics_decls(),
        PackageView::Builtins(r.deep_view()).wf(),
{
    proof {
        lemma_intrinsics_wf();
    }
    let mut r: Vec<Named<Vec<String>>> = Vec::new();
    let mut v: Vec<String> = Vec::new();
    v.push("car".to_owned());
    v.push("cdr".to_owned());
    v.push("cons".to_owned());
    v.push("eq_num".to_owned());
    v.push("eq".to_owned());
    v.push("equals".to_owned());
    v.push("list".to_owned());
    v.push("panic".to_owned());
    r.push(Named { name: "".to_owned(), value: v });
    let mut v: Vec<String> = Vec::new();
    v.push("symbol_of_string".to_owned());
    r.push(Named { name: "convert".to_owned(), value: v });
    let mut v: Vec<String> = Vec::new();
    v.push("print".to_owned());
    v.push("println".to_owned());
    v.push("write".to_owned());
    v.push("writeln".to_owned());
    v.push("write_bytes".to_owned());
    r.push(Named { name: "io".to_owned(), value: v });
    let mut v: Vec<String> = Vec::new();
    v.push("add".to_owned());
    v.push("mul".to_owned());
    v.push("sub".to_owned());
    r.push(Named { name: "math".to_owned(), value: v });
    let mut v: Vec<String> = Vec::new();
    v.push("read_dir".to_owned());
    v.push("read_file".to_owned());
    r.push(Named { name: "oftb".to_owned(), value: v });
    let mut v: Vec<String> = Vec::new();
    v.push("append".to_owned());
    v.push("length".to_owned());
    v.push("slice".to_owned());
    r.push(Named { name: "strings".to_owned(), value: v });
    let mut v: Vec<String> = Vec::new();
    v.push("is_byte".to_owned());
    v.push("is_bytes".to_owned());
    v.push("is_cons".to_owned());
    v.push("is_fixnum".to_owned());
    v.push("is_function".to_owned());
    v.push("is_nil".to_owned());
    v.push("is_string".to_owned());
    v.push("is_symbol".to_owned());
    v.push("is_vector".to_owned());
    r.push(Named { name: "types".to_owned(), value: v });
    let mut v: Vec<String> = Vec::new();
    v.push("append".to_owned());
    v.push("length".to_owned());
    v.push("nth".to_owned());
    v.push("slice".to_owned());
    r.push(Named { name: "vector".to_owned(), value: v });
    assert(r.deep_view() =~~= spec_intrinsics_decls());
    r
}

/// The displayed values separated by single spaces.
pub open spec fn spec_join_spaces(parts: Seq<Seq<char>>) -> Seq<char>
    decreases parts.len(),
{
    if parts.len() == 0 {
        Seq::empty()
    } else if parts.len() == 1 {
        parts[0]
    } else {
        spec_join_spaces(parts.drop_last()) + seq![' '] + parts.last()
    }
}

/// The line that printing the values writes: their displays, separated by single
/// spaces.
pub fn join_displays(parts: &Vec<String>) -> (r: String)
    ensures
        r@ == spec_join_spaces(parts.deep_view()),
{
    let ghost ps = parts.deep_view();
    let mut r = String::new();
    let mut first = true;
    let mut i: usize = 0;
    proof {
        reveal_strlit(" ");
    }
    while i < parts.len()
        invariant
            i <= parts.len(),
            ps == parts.deep_view(),
            first == (i == 0),
            r@ == spec_join_spaces(ps.take(i as int)),
            " "@ == seq![' '],
        decreases parts.len() - i,
    {
        assert(ps.take(i + 1).drop_last() =~= ps.take(i as int));
        if first {
            first = false;
        } else {
            r.append(" ");
        }
        r.append(parts[i].as_str());
        proof {
            if i == 0 {
                assert(r@ =~= ps.take(1)[0]);
            }
        }
        i = i + 1;
    }
    assert(ps.take(parts.len() as int) =~= ps);
    r
}

} // verus!
