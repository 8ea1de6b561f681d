//! The canonical textual form of values.
use vstd::prelude::*;
use crate::value::{Dict, Pair, Tuple, Value, ValueView};

verus! {

/// The character of one decimal digit.
pub open spec fn digit_char(d: int) -> char {
    if d == 0 {
        '0'
    } else if d == 1 {
        '1'
    } else if d == 2 {
        '2'
    } else if d == 3 {
        '3'
    } else if d == 4 {
        '4'
    } else if d == 5 {
        '5'
    } else if d == 6 {
        '6'
    } else if d == 7 {
        '7'
    } else if d == 8 {
        '8'
    } else {
        '9'
    }
}

/// The decimal digits of a natural number, most significant first, without
/// leading zeros.
pub open spec fn decimal(n: nat) -> Seq<char>
    decreases n,
{
    if n < 10 {
        seq![digit_char(n as int)]
    } else {
        decimal(n / 10).push(digit_char((n % 10) as int))
    }
}

/// The decimal text of an integer, with a minus sign when it is negative.
pub open spec fn signed_decimal(i: int) -> Seq<char> {
    if i < 0 {
        seq!['-'] + decimal((-i) as nat)
    } else {
        decimal(i as nat)
    }
}

/// The texts of the items, separated by single spaces.
pub open spec fn text_joined(items: Seq<ValueView>) -> Seq<char>
    decreases items, 0nat,
{
    if items.len() == 0 {
        Seq::empty()
    } else if items.len() == 1 {
        text_of(items[0])
    } else {
        text_joined(items.drop_last()) + seq![' '] + text_of(items.last())
    }
}

/// The inside of a printed list whose first cell is `cell`: the elements
/// separated by spaces, and a dotted tail where the chain does not end in
/// `Nil`. For a value that is no pair it is empty.
pub open spec fn text_chain(cell: ValueView) -> Seq<char>
    decreases cell, 0nat,
{
    match cell {
        ValueView::Pair(head, tail) => text_of(*head) + (match *tail {
            ValueView::Pair(_, _) => seq![' '] + text_chain(*tail),
            ValueView::Nil => Seq::empty(),
            _ => seq![' ', '.', ' '] + text_of(*tail),
        }),
        _ => Seq::empty(),
    }
}

/// The canonical text of a value.
pub open spec fn text_of(v: ValueView) -> Seq<char>
    decreases v, 1nat,
{
    match v {
        ValueView::Nil => seq!['n', 'i', 'l'],
        ValueView::Bool(b) => if b {
            seq!['t', 'r', 'u', 'e']
        } else {
            seq!['f', 'a', 'l', 's', 'e']
        },
        ValueView::Char(c) => seq!['(', 'c', 'h', 'a', 'r', ' ', '"', c, '"', ')'],
        ValueView::Uint(n) => decimal(n as nat),
        ValueView::Int(n) => signed_decimal(n as int),
        ValueView::Float(t) => t,
        ValueView::Str(s) => seq!['"'] + s + seq!['"'],
        ValueView::Sym(s) => s,
        ValueView::Pair(_, _) => seq!['\'', '('] + text_chain(v) + seq![')'],
        ValueView::Tuple(items) => seq!['(', 'v', 'e', 'c', ' '] + text_joined(items) + seq![')'],
    }
}

/// The text of one dictionary entry: a quoted pair of the key, as a string,
/// and the value.
pub open spec fn text_of_entry(key: Seq<char>, v: ValueView) -> Seq<char> {
    seq!['\'', '(', '"'] + key + seq!['"', ' ', '.', ' '] + text_of(v) + seq![')']
}

/// The texts of the entries, separated by single spaces.
pub open spec fn text_of_entries(entries: Seq<(Seq<char>, ValueView)>) -> Seq<char>
    decreases entries.len(),
{
    if entries.len() == 0 {
        Seq::empty()
    } else if entries.len() == 1 {
        text_of_entry(entries[0].0, entries[0].1)
    } else {
        text_of_entries(entries.drop_last()) + seq![' '] + text_of_entry(
            entries.last().0,
            entries.last().1,
        )
    }
}

/// The canonical text of a dictionary.
pub open spec fn text_of_dict(entries: Seq<(Seq<char>, ValueView)>) -> Seq<char> {
    seq!['(', 'd', 'i', 'c', 't', ' '] + text_of_entries(entries) + seq![')']
}

fn digit(d: u64) -> (c: char)
    requires
        d < 10,
    ensures
        c == digit_char(d as int),
{
    if d == 0 {
        '0'
    } else if d == 1 {
        '1'
    } else if d == 2 {
        '2'
    } else if d == 3 {
        '3'
    } else if d == 4 {
        '4'
    } else if d == 5 {
        '5'
    } else if d == 6 {
        '6'
    } else if d == 7 {
        '7'
    } else if d == 8 {
        '8'
    } else {
        '9'
    }
}

fn write_decimal(n: u64, out: &mut String)
    ensures
        final(out)@ == old(out)@ + decimal(n as nat),
    decreases n,
{
    if n < 10 {
        out.push(digit(n));
        assert(out@ =~= old(out)@ + decimal(n as nat));
    } else {
        write_decimal(n / 10, out);
        out.push(digit(n % 10));
        assert(out@ =~= old(out)@ + decimal(n as nat));
    }
}

fn write_signed(n: i64, out: &mut String)
    ensures
        final(out)@ == old(out)@ + signed_decimal(n as int),
{
    if n < 0 {
        out.push('-');
        let below: u64 = (-(n + 1)) as u64;
        write_decimal(below + 1, out);
        assert(out@ =~= old(out)@ + signed_decimal(n as int));
    } else {
        write_decimal(n as u64, out);
    }
}

fn write_joined(items: &Vec<Value>, out: &mut String)
    ensures
        final(out)@ == old(out)@ + text_joined(crate::value::views_of(items@)),
    decreases items, 0nat,
{
    let ghost views = crate::value::views_of(items@);
    proof {
        crate::value::lemma_views_of(items@);
    }
    let mut i: usize = 0;
    while i < items.len()
        invariant
            i <= items.len(),
            views == crate::value::views_of(items@),
            views.len() == items.len(),
            forall|j: int| 0 <= j < items.len() ==> #[trigger] views[j] == items[j]@,
            out@ == old(out)@ + text_joined(views.take(i as int)),
        decreases items.len() - i,
    {
        let ghost before = out@;
        if i > 0 {
            out.push(' ');
        }
        write_value(&items[i], out);
        proof {
            let next = views.take(i + 1);
            assert(next.drop_last() =~= views.take(i as int));
            assert(next.last() == items[i as int]@);
            if i == 0 {
                assert(next[0] == items[0]@);
                assert(text_joined(views.take(0)) =~= Seq::<char>::empty());
            }
            assert(out@ =~= old(out)@ + text_joined(next));
        }
        i = i + 1;
    }
    proof {
        assert(views.take(items.len() as int) =~= views);
    }
}

fn write_chain(cell: &Pair, out: &mut String)
    ensures
        final(out)@ == old(out)@ + text_chain(ValueView::Pair(Box::new(cell.0@), Box::new(cell.1@))),
    decreases cell, 0nat,
{
    write_value(&cell.0, out);
    match &cell.1 {
        Value::Pair(next) => {
            out.push(' ');
            write_chain(next, out);
            assert(cell.1@ == ValueView::Pair(Box::new(next.0@), Box::new(next.1@)));
        },
        Value::Nil => {},
        other => {
            out.push(' ');
            out.push('.');
            out.push(' ');
            write_value(other, out);
        },
    }
    assert(out@ =~= old(out)@ + text_chain(
        ValueView::Pair(Box::new(cell.0@), Box::new(cell.1@)),
    ));
}

fn write_value(v: &Value, out: &mut String)
    ensures
        final(out)@ == old(out)@ + text_of(v@),
    decreases v, 1nat,
{
    match v {
        Value::Nil => {
            out.push('n');
            out.push('i');
            out.push('l');
        },
        Value::Bool(b) => {
            if *b {
                out.push('t');
                out.push('r');
                out.push('u');
                out.push('e');
            } else {
                out.push('f');
                out.push('a');
                out.push('l');
                out.push('s');
                out.push('e');
            }
        },
        Value::Char(c) => {
            out.push('(');
            out.push('c');
            out.push('h');
            out.push('a');
            out.push('r');
            out.push(' ');
            out.push('"');
            out.push(*c);
            out.push('"');
            out.push(')');
        },
        Value::Uint(n) => {
            write_decimal(*n, out);
        },
        Value::Int(n) => {
            write_signed(*n, out);
        },
        Value::Float(t) => {
            out.push_str(t.as_str());
        },
        Value::Str(s) => {
            out.push('"');
            out.push_str(s.as_str());
            out.push('"');
        },
        Value::Sym(s) => {
            out.push_str(s.as_str());
        },
        Value::Pair(p) => {
            out.push('\'');
            out.push('(');
            write_chain(p, out);
            out.push(')');
        },
        Value::Tuple(t) => {
            out.push('(');
            out.push('v');
            out.push('e');
            out.push('c');
            out.push(' ');
            write_joined(&t.0, out);
            out.push(')');
        },
    }
    assert(out@ =~= old(out)@ + text_of(v@));
}

impl Value {
    /// The canonical text of the value: literal forms for atoms, a quoted
    /// list for a chain of pairs, `(vec ...)` for a tuple.
    pub fn to_text(&self) -> (r: String)
        ensures
            r@ == text_of(self@),
    {
        let mut out = String::new();
        write_value(self, &mut out);
        assert(out@ =~= text_of(self@));
        out
    }
}

impl Pair {
    /// The canonical text of the pair as a value.
    pub fn to_text(&self) -> (r: String)
        ensures
            r@ == text_of(ValueView::Pair(Box::new(self.0@), Box::new(self.1@))),
    {
        let mut out = String::new();
        out.push('\'');
        out.push('(');
        write_chain(self, &mut out);
        out.push(')');
        assert(out@ =~= text_of(ValueView::Pair(Box::new(self.0@), Box::new(self.1@))));
        out
    }
}

impl Tuple {
    /// The canonical text of the tuple as a value.
    pub fn to_text(&self) -> (r: String)
        ensures
            r@ == text_of(ValueView::Tuple(self@)),
    {
        let mut out = String::new();
        out.push('(');
        out.push('v');
        out.push('e');
        out.push('c');
        out.push(' ');
        write_joined(&self.0, &mut out);
        out.push(')');
        assert(out@ =~= text_of(ValueView::Tuple(self@)));
        out
    }
}

impl Dict {
    /// The canonical text of the dictionary: `(dict ...)` around one quoted
    /// pair for each entry, in order.
    pub fn to_text(&self) -> (r: String)
        ensures
            r@ == text_of_dict(self@),
    {
        let mut out = String::new();
        out.push('(');
        out.push('d');
        out.push('i');
        out.push('c');
        out.push('t');
        out.push(' ');
        let ghost head = out@;
        let mut i: usize = 0;
        while i < self.0.len()
            invariant
                i <= self.0.len(),
                self@.len() == self.0.len(),
                forall|j: int| 0 <= j < self.0.len() ==> #[trigger] self@[j] == (self.0[j].0@, self.0[j].1@),
                out@ == head + text_of_entries(self@.take(i as int)),
            decreases self.0.len() - i,
        {
            if i > 0 {
                out.push(' ');
            }
            out.push('\'');
            out.push('(');
            out.push('"');
            out.push_str(self.0[i].0.as_str());
            out.push('"');
            out.push(' ');
            out.push('.');
            out.push(' ');
            write_value(&self.0[i].1, &mut out);
            out.push(')');
            proof {
                let next = self@.take(i + 1);
                assert(next.drop_last() =~= self@.take(i as int));
                assert(next.last() == self@[i as int]);
                if i == 0 {
                    assert(next[0] == self@[0]);
                    assert(text_of_entries(self@.take(0)) =~= Seq::<char>::empty());
                }
                assert(out@ =~= head + text_of_entries(next));
            }
            i = i + 1;
        }
        out.push(')');
        proof {
            assert(self@.take(self.0.len() as int) =~= self@);
            assert(out@ =~= text_of_dict(self@));
        }
        out
    }
}

} // verus!
