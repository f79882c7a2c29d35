//! What the spacing pass leaves as it is.
//!
//! A line is settled when every operator stands between single spaces (or
//! at an end of the line, or before a `,` or `;`), no `,` and no `;` has a
//! space before it and each has a space behind it (or the end of the line,
//! or another `,` or `;`), and no two spaces follow each other; text in
//! single quotes is free. The spacing pass turns every line into a settled
//! line, and it leaves a settled line as it is.

use crate::formatting::{
    comment_line, operator_pair_at, pad_after, pad_before, quote_end, spaced, spaced_from,
    spacing_step,
};
use crate::text::{
    lemma_trail_is, lemma_trail_space, space_at, trail_space, trim_end_by, trimmed_end, ByteSet,
};
use vstd::prelude::*;

verus! {

/// How far a line is settled, read from its start.
pub enum Shape {
    /// Nothing was read yet.
    Start,
    /// The last byte is a space outside quotes.
    Space,
    /// The last byte is an ordinary byte outside quotes.
    Word,
    /// The text read ends inside single quotes.
    Quote,
    /// The last byte is one of `:`, `+`, `-`, `*`, `/`, which an `=` would
    /// make an operator. `free` says whether an operator may stand here:
    /// at the start of the line or behind a space.
    Half { free: bool },
    /// The last byte is `<` or `>`.
    Angle { free: bool },
    /// The last bytes are a two-byte operator.
    Op,
    /// The last byte is a `,`.
    Comma,
    /// The last byte is a `;`.
    Semi,
    /// The line is not settled.
    Bad,
}

/// Whether an `=` makes the byte an operator.
pub open spec fn is_half(c: u8) -> bool {
    c == 0x3a || c == 0x2b || c == 0x2d || c == 0x2a || c == 0x2f
}

/// Whether the byte is `<` or `>`.
pub open spec fn is_angle(c: u8) -> bool {
    c == 0x3c || c == 0x3e
}

/// The shape after the byte `c`, read where an ordinary byte may stand.
pub open spec fn plain_step(st: Shape, c: u8) -> Shape {
    let free = !(st is Word);
    if c == 0x20 {
        if st is Space {
            Shape::Bad
        } else {
            Shape::Space
        }
    } else if c == 0x2c {
        if st is Space {
            Shape::Bad
        } else {
            Shape::Comma
        }
    } else if c == 0x3b {
        if st is Space {
            Shape::Bad
        } else {
            Shape::Semi
        }
    } else if c == 0x27 {
        Shape::Quote
    } else if is_half(c) {
        Shape::Half { free }
    } else if is_angle(c) {
        Shape::Angle { free }
    } else {
        Shape::Word
    }
}

/// The shape after the byte `c`, read behind an operator, a `,` or a `;`.
pub open spec fn demand_step(c: u8, semi: bool) -> Shape {
    if c == 0x20 {
        Shape::Space
    } else if c == 0x2c {
        Shape::Comma
    } else if c == 0x3b {
        Shape::Semi
    } else if semi && c == 0x0a {
        Shape::Word
    } else {
        Shape::Bad
    }
}

/// The shape after one more byte.
pub open spec fn shape_step(st: Shape, c: u8) -> Shape {
    match st {
        Shape::Bad => Shape::Bad,
        Shape::Start | Shape::Space | Shape::Word => plain_step(st, c),
        Shape::Quote => if c == 0x27 {
            Shape::Word
        } else {
            Shape::Quote
        },
        Shape::Half { free } => if c == 0x3d {
            if free {
                Shape::Op
            } else {
                Shape::Bad
            }
        } else {
            plain_step(Shape::Word, c)
        },
        Shape::Angle { free } => if c == 0x3d || c == 0x3e {
            if free {
                Shape::Op
            } else {
                Shape::Bad
            }
        } else if free {
            demand_step(c, false)
        } else {
            Shape::Bad
        },
        Shape::Op | Shape::Comma => demand_step(c, false),
        Shape::Semi => demand_step(c, true),
    }
}

/// The shape of a text.
pub open spec fn shape(u: Seq<u8>) -> Shape
    decreases u.len(),
{
    if u.len() == 0 {
        Shape::Start
    } else {
        shape_step(shape(u.drop_last()), u.last())
    }
}

/// Whether a line is settled.
pub open spec fn settled(u: Seq<u8>) -> bool {
    !(shape(u) is Bad) && shape(u) != (Shape::Angle { free: false })
}

proof fn lemma_shape_push(u: Seq<u8>, c: u8)
    ensures
        shape(u.push(c)) == shape_step(shape(u), c),
{
    assert(u.push(c).drop_last() =~= u);
}

proof fn lemma_shape_take(u: Seq<u8>, k: int)
    requires
        0 <= k < u.len(),
    ensures
        shape(u.take(k + 1)) == shape_step(shape(u.take(k)), u[k]),
{
    assert(u.take(k + 1).drop_last() =~= u.take(k));
}

/// A text whose start is not settled is not settled.
proof fn lemma_shape_prefix(u: Seq<u8>, k: int)
    requires
        0 <= k <= u.len(),
        !(shape(u) is Bad),
    ensures
        !(shape(u.take(k)) is Bad),
    decreases u.len() - k,
{
    if k < u.len() {
        lemma_shape_prefix(u, k + 1);
        lemma_shape_take(u, k);
    } else {
        assert(u.take(k) =~= u);
    }
}

/// What the shape of a text says of its last byte.
proof fn lemma_shape_last(u: Seq<u8>)
    ensures
        shape(u) is Start <==> u.len() == 0,
        shape(u) is Space ==> u.len() > 0 && u.last() == 0x20,
        u.len() > 0 && u.last() == 0x20 && !(shape(u) is Bad) && !(shape(u) is Quote) ==> shape(
            u,
        ) is Space,
        u.len() > 0 && shape(u) is Space ==> !(shape(u.drop_last()) is Space) && !(shape(
            u.drop_last(),
        ) is Quote) && !(shape(u.drop_last()) is Bad),
        u.len() > 0 && shape(u) is Space && shape(u.drop_last()) is Angle ==> shape(u.drop_last())
            == (Shape::Angle { free: true }),
{
}

/// A text outside quotes ends in at most one space.
proof fn lemma_trim_spaces(u: Seq<u8>)
    requires
        !(shape(u) is Bad),
        !(shape(u) is Quote),
    ensures
        trim_end_by(u, ByteSet::Only(0x20)) == if shape(u) is Space {
            u.drop_last()
        } else {
            u
        },
{
    lemma_shape_last(u);
    if shape(u) is Space {
        let x = u.drop_last();
        lemma_shape_last(x);
        if x.len() > 0 {
            assert(u[u.len() - 2] == x.last());
        }
        lemma_trail_is(u, ByteSet::Only(0x20), 1);
        assert(u.take(u.len() - 1) =~= x);
    } else {
        lemma_trail_is(u, ByteSet::Only(0x20), 0);
        assert(u.take(u.len() as int) =~= u);
    }
}

/// Whether the spacing pass has written a space behind what the shape ends
/// in, where the next byte is not a space.
pub open spec fn demanding(st: Shape) -> bool {
    st is Op || st is Comma || st is Semi || st is Angle
}

/// The space that the spacing pass has written behind an operator, a `,`
/// or a `;` when a `,` or `;` comes next, and that this next byte takes
/// away again.
pub open spec fn pending(u: Seq<u8>, i: int) -> Seq<u8> {
    if 0 <= i < u.len() && (u[i] == 0x2c || u[i] == 0x3b) && demanding(shape(u.take(i))) {
        seq![0x20u8]
    } else {
        Seq::empty()
    }
}

/// Where the spacing pass stands when it has read the first `i` bytes of a
/// settled line: it has written what it has read.
pub open spec fn reads_on(u: Seq<u8>, i: int, acc: Seq<u8>) -> bool {
    &&& 0 <= i <= u.len()
    &&& acc == u.take(i) + pending(u, i)
    &&& (shape(u.take(i)) is Quote ==> i == u.len())
    &&& (shape(u.take(i)) is Half ==> i == u.len() || u[i] != 0x3d)
    &&& (shape(u.take(i)) is Angle ==> i == u.len() || (u[i] != 0x3d && u[i] != 0x3e))
}

/// The shape at the end of quoted text: behind the closing quote, or inside
/// quotes at the end of the line.
proof fn lemma_quote_shape(u: Seq<u8>, from: int)
    requires
        0 < from <= u.len(),
        shape(u.take(from)) is Quote,
    ensures
        from <= quote_end(u, from) <= u.len(),
        from < u.len() ==> from < quote_end(u, from),
        shape(u.take(quote_end(u, from))) is Word || (shape(u.take(quote_end(u, from))) is Quote
            && quote_end(u, from) == u.len()),
    decreases u.len() - from,
{
    if from < u.len() {
        lemma_shape_take(u, from);
        if u[from] != 0x27 {
            lemma_quote_shape(u, from + 1);
        }
    }
}

/// One step of the spacing pass on a settled line writes what it reads.
proof fn lemma_settled_step(u: Seq<u8>, i: int, acc: Seq<u8>)
    requires
        settled(u),
        reads_on(u, i, acc),
        i < u.len(),
    ensures
        i < spacing_step(u, i, acc).next <= u.len(),
        reads_on(u, spacing_step(u, i, acc).next, spacing_step(u, i, acc).out),
{
    let st = shape(u.take(i));
    let ch = u[i];
    let step = spacing_step(u, i, acc);
    lemma_shape_prefix(u, i);
    lemma_shape_prefix(u, i + 1);
    lemma_shape_take(u, i);
    lemma_shape_last(u.take(i));
    if i > 0 {
        assert(u.take(i).last() == u[i - 1]);
    }
    let st1 = shape(u.take(i + 1));
    assert(st1 == shape_step(st, ch));
    if ch == 0x27 {
        assert(pending(u, i) =~= Seq::<u8>::empty());
        assert(st1 is Quote);
        lemma_quote_shape(u, i + 1);
        let j = quote_end(u, i + 1);
        assert(step.out =~= u.take(j));
        assert(pending(u, j) =~= Seq::<u8>::empty());
        assert(step.out =~= u.take(j) + pending(u, j));
    } else if operator_pair_at(u, i) {
        lemma_shape_prefix(u, i + 2);
        lemma_shape_take(u, i + 1);
        assert(pending(u, i) =~= Seq::<u8>::empty());
        assert(acc =~= u.take(i));
        assert(st is Start || st is Space);
        assert(pad_before(acc) == acc);
        assert(acc + u.subrange(i, i + 2) =~= u.take(i + 2));
        assert(shape(u.take(i + 2)) is Op);
        if i + 2 < u.len() {
            lemma_shape_prefix(u, i + 3);
            lemma_shape_take(u, i + 2);
        }
        assert(step.out =~= u.take(i + 2) + pending(u, i + 2));
    } else if ch == 0x3c || ch == 0x3e {
        assert(pending(u, i) =~= Seq::<u8>::empty());
        assert(acc =~= u.take(i));
        assert(st1 is Angle);
        if i + 1 < u.len() {
            lemma_shape_prefix(u, i + 2);
            lemma_shape_take(u, i + 1);
        } else {
            assert(u.take(i + 1) =~= u);
        }
        assert(st1 == (Shape::Angle { free: true }));
        assert(st is Start || st is Space);
        assert(pad_before(acc) == acc);
        assert(acc.push(ch) =~= u.take(i + 1));
        assert(step.out =~= u.take(i + 1) + pending(u, i + 1));
    } else if ch == 0x2c || ch == 0x3b {
        assert(!(st is Space));
        lemma_settled_pop(u, i, acc);
        assert(trim_end_by(acc, ByteSet::Only(0x20)) == u.take(i));
        assert(u.take(i).push(ch) =~= u.take(i + 1));
        if i + 1 < u.len() {
            lemma_shape_prefix(u, i + 2);
            lemma_shape_take(u, i + 1);
        }
        assert(step.out =~= u.take(i + 1) + pending(u, i + 1));
    } else if ch == 0x20 {
        assert(pending(u, i) =~= Seq::<u8>::empty());
        assert(acc =~= u.take(i));
        assert(!(st is Space));
        assert(acc.len() > 0 ==> acc.last() != 0x20);
        assert(acc.push(ch) =~= u.take(i + 1));
        assert(st1 is Space);
        assert(pending(u, i + 1) =~= Seq::<u8>::empty());
        assert(step.out =~= u.take(i + 1) + pending(u, i + 1));
    } else {
        assert(pending(u, i) =~= Seq::<u8>::empty());
        assert(acc =~= u.take(i));
        assert(acc.push(ch) =~= u.take(i + 1));
        assert(st1 is Word || st1 is Half);
        assert(pending(u, i + 1) =~= Seq::<u8>::empty());
        assert(step.out =~= u.take(i + 1) + pending(u, i + 1));
    }
}

/// Before a `,` or `;` of a settled line, the spacing pass takes away
/// exactly the space that it has put there.
proof fn lemma_settled_pop(u: Seq<u8>, i: int, acc: Seq<u8>)
    requires
        settled(u),
        reads_on(u, i, acc),
        i < u.len(),
        u[i] == 0x2c || u[i] == 0x3b,
        !(shape(u.take(i)) is Space),
    ensures
        trim_end_by(acc, ByteSet::Only(0x20)) == u.take(i),
{
    let x = u.take(i);
    lemma_shape_prefix(u, i);
    lemma_shape_last(x);
    let set = ByteSet::Only(0x20);
    if pending(u, i).len() > 0 {
        assert(acc =~= x.push(0x20));
        if x.len() > 0 {
            assert(acc[acc.len() - 2] == x.last());
        }
        lemma_trail_is(acc, set, 1);
        assert(acc.take(acc.len() - 1) =~= x);
    } else {
        assert(acc =~= x);
        lemma_trail_is(acc, set, 0);
        assert(acc.take(acc.len() as int) =~= acc);
    }
}

/// The spacing pass, standing anywhere in a settled line, ends with the line.
proof fn lemma_settled_from(u: Seq<u8>, i: int, acc: Seq<u8>)
    requires
        settled(u),
        reads_on(u, i, acc),
    ensures
        spaced_from(u, i, acc) == u,
    decreases u.len() - i,
{
    if i >= u.len() {
        assert(u.take(i) =~= u);
        assert(acc =~= u);
    } else {
        lemma_settled_step(u, i, acc);
        let step = spacing_step(u, i, acc);
        lemma_settled_from(u, step.next, step.out);
    }
}

/// The spacing pass leaves a settled line as it is, but for white space at
/// its end.
pub proof fn law_settled_lines_stay(u: Seq<u8>)
    requires
        settled(u),
    ensures
        spaced(u) == trimmed_end(u) || spaced(u) == u,
{
    if u.len() > 0 && !comment_line(u) {
        assert(u.take(0) =~= Seq::<u8>::empty());
        assert(Seq::<u8>::empty() + pending(u, 0) =~= Seq::<u8>::empty());
        lemma_settled_from(u, 0, Seq::empty());
    }
}

/// Where the spacing pass stands when it has read the first `i` bytes of
/// any line: what it has written is settled so far, and what it has to
/// read next cannot unsettle it.
pub open spec fn writes_on(s: Seq<u8>, i: int, acc: Seq<u8>) -> bool {
    let st = shape(acc);
    &&& 0 <= i <= s.len()
    &&& !(st is Bad)
    &&& (st is Quote ==> i == s.len())
    &&& (st is Half ==> i == s.len() || s[i] != 0x3d)
    &&& (st is Angle ==> st == (Shape::Angle { free: true }) && (i == s.len() || s[i] == 0x20))
    &&& (st is Op || st is Comma ==> i == s.len() || s[i] == 0x20)
    &&& (st is Semi ==> i == s.len() || s[i] == 0x20 || s[i] == 0x0a)
}

/// Quoted text that is copied stays quoted text, up to the closing quote.
proof fn lemma_quote_copy(s: Seq<u8>, a: Seq<u8>, from: int)
    requires
        0 <= from <= s.len(),
        shape(a) is Quote,
    ensures
        from <= quote_end(s, from) <= s.len(),
        from < s.len() ==> from < quote_end(s, from),
        shape(a + s.subrange(from, quote_end(s, from))) is Word || (shape(
            a + s.subrange(from, quote_end(s, from)),
        ) is Quote && quote_end(s, from) == s.len()),
    decreases s.len() - from,
{
    if from >= s.len() {
        assert(a + s.subrange(from, s.len() as int) =~= a);
    } else if s[from] == 0x27 {
        lemma_shape_push(a, 0x27);
        assert(a + s.subrange(from, from + 1) =~= a.push(0x27));
    } else {
        lemma_shape_push(a, s[from]);
        lemma_quote_copy(s, a.push(s[from]), from + 1);
        let j = quote_end(s, from);
        assert(a.push(s[from]) + s.subrange(from + 1, j) =~= a + s.subrange(from, j));
    }
}

/// Before an operator, what is written ends in a space or is empty.
proof fn lemma_pad_before(s: Seq<u8>, i: int, acc: Seq<u8>)
    requires
        writes_on(s, i, acc),
        i < s.len(),
        is_half(s[i]) || is_angle(s[i]),
    ensures
        shape(pad_before(acc)) is Start || shape(pad_before(acc)) is Space,
{
    lemma_shape_last(acc);
    if acc.len() > 0 && acc.last() != 0x20 {
        lemma_shape_push(acc, 0x20);
    }
}

/// What is written behind an operator, a `,` or a `;`.
proof fn lemma_pad_after(s: Seq<u8>, a: Seq<u8>, j: int)
    requires
        0 <= j <= s.len(),
        shape(a) is Op || shape(a) is Comma || shape(a) == (Shape::Angle { free: true }),
    ensures
        writes_on(s, j, pad_after(a, s, j)),
{
    if j < s.len() && s[j] != 0x20 {
        lemma_shape_push(a, 0x20);
    }
}

/// One step of the spacing pass keeps what is written settled.
proof fn lemma_writes_step(s: Seq<u8>, i: int, acc: Seq<u8>)
    requires
        writes_on(s, i, acc),
        i < s.len(),
    ensures
        i < spacing_step(s, i, acc).next <= s.len(),
        writes_on(s, spacing_step(s, i, acc).next, spacing_step(s, i, acc).out),
{
    let st = shape(acc);
    let ch = s[i];
    let step = spacing_step(s, i, acc);
    lemma_shape_last(acc);
    if ch == 0x27 {
        lemma_shape_push(acc, 0x27);
        lemma_quote_copy(s, acc.push(0x27), i + 1);
        let j = quote_end(s, i + 1);
        assert(acc.push(0x27) + s.subrange(i + 1, j) =~= acc + s.subrange(i, j));
    } else if operator_pair_at(s, i) {
        lemma_pad_before(s, i, acc);
        let a1 = pad_before(acc);
        lemma_shape_push(a1, ch);
        lemma_shape_push(a1.push(ch), s[i + 1]);
        assert(a1 + s.subrange(i, i + 2) =~= a1.push(ch).push(s[i + 1]));
        lemma_pad_after(s, a1 + s.subrange(i, i + 2), i + 2);
    } else if ch == 0x3c || ch == 0x3e {
        lemma_pad_before(s, i, acc);
        let a1 = pad_before(acc);
        lemma_shape_push(a1, ch);
        lemma_pad_after(s, a1.push(ch), i + 1);
    } else if ch == 0x2c {
        lemma_trim_spaces(acc);
        let a0 = trim_end_by(acc, ByteSet::Only(0x20));
        lemma_shape_push(a0, ch);
        lemma_pad_after(s, a0.push(ch), i + 1);
    } else if ch == 0x3b {
        lemma_trim_spaces(acc);
        let a0 = trim_end_by(acc, ByteSet::Only(0x20));
        lemma_shape_push(a0, ch);
        let a = a0.push(ch);
        assert(shape(a) is Semi);
        if i + 1 < s.len() && s[i + 1] != 0x20 && s[i + 1] != 0x0a {
            lemma_shape_push(a, 0x20);
        }
    } else if ch == 0x20 && acc.len() > 0 && acc.last() == 0x20 {
    } else {
        lemma_shape_push(acc, ch);
    }
}

/// The spacing pass, standing anywhere with settled text written, ends
/// with settled text.
proof fn lemma_writes_from(s: Seq<u8>, i: int, acc: Seq<u8>)
    requires
        writes_on(s, i, acc),
    ensures
        !(shape(spaced_from(s, i, acc)) is Bad),
        shape(spaced_from(s, i, acc)) != (Shape::Angle { free: false }),
    decreases s.len() - i,
{
    if i < s.len() {
        lemma_writes_step(s, i, acc);
        let step = spacing_step(s, i, acc);
        lemma_writes_from(s, step.next, step.out);
    }
}

/// A settled text without the white space at its end is settled.
proof fn lemma_trimmed_settled(o: Seq<u8>)
    requires
        settled(o),
    ensures
        settled(trimmed_end(o)),
        trimmed_end(trimmed_end(o)) == trimmed_end(o),
{
    let n = trail_space(o);
    lemma_trail_space(o);
    let t = trimmed_end(o);
    lemma_shape_prefix(o, o.len() - n);
    if n > 0 {
        lemma_shape_prefix(o, o.len() - n + 1);
        lemma_shape_take(o, o.len() - n);
        assert(space_at(o, o.len() - n) > 0);
    } else {
        assert(t =~= o);
    }
    assert(t.take(t.len() as int) =~= t);
}

/// The spacing pass turns every line into a settled line.
pub proof fn law_spaced_lines_are_settled(s: Seq<u8>)
    requires
        s.len() > 0,
        !comment_line(s),
    ensures
        settled(spaced(s)),
{
    lemma_writes_from(s, 0, Seq::empty());
    lemma_trimmed_settled(spaced_from(s, 0, Seq::empty()));
}

/// The spacing pass is idempotent: it leaves a line that it has produced
/// as it is.
pub proof fn law_spacing_idempotent(s: Seq<u8>)
    ensures
        spaced(spaced(s)) == spaced(s),
{
    if s.len() > 0 && !comment_line(s) {
        let o = spaced_from(s, 0, Seq::empty());
        lemma_writes_from(s, 0, Seq::empty());
        lemma_trimmed_settled(o);
        let t = spaced(s);
        if t.len() > 0 && !comment_line(t) {
            assert(t.take(0) =~= Seq::<u8>::empty());
            assert(Seq::<u8>::empty() + pending(t, 0) =~= Seq::<u8>::empty());
            lemma_settled_from(t, 0, Seq::empty());
        }
    }
}

} // verus!
