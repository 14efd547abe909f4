//! How lines and blocks are read.

use vstd::prelude::*;

use crate::config::lexer::TokView;
use crate::config::parser::{all_items, one_item, plain_step, single, step, Context, Progress};
use crate::config::value::{ItemView, ValueView};

verus! {

/// What a token stands for where it is a value on its own.
pub open spec fn meant_by(t: TokView) -> Option<ValueView> {
    match t {
        TokView::StringLit(s) => Some(ValueView::String(s)),
        TokView::Int(n) => Some(ValueView::Int(n)),
        TokView::Float(x) => Some(ValueView::Float(x)),
        TokView::Dimension(x, u) => Some(ValueView::Dimension(x, u)),
        TokView::Color(r, g, b, a) => Some(ValueView::Color(r, g, b, a)),
        _ => None,
    }
}

/// A token that is a value on its own is read as that value, and the next token follows.
/// The words for true and false are truth values; other words stand for themselves.
pub proof fn law_tokens_are_values(c: Context, p: Progress)
    requires
        0 <= p.i < c.toks.len(),
    ensures
        meant_by(c.toks[p.i].tok) matches Some(v) ==> (single(c, p).0 matches Some(x) && x.value == v
            && x.span == c.toks[p.i].span),
        c.toks[p.i].tok == TokView::Ident("true"@) ==> (single(c, p).0 matches Some(x) && x.value
            == ValueView::Bool(true)),
        c.toks[p.i].tok == TokView::Ident("false"@) ==> (single(c, p).0 matches Some(x) && x.value
            == ValueView::Bool(false)),
        meant_by(c.toks[p.i].tok) is Some && p.i + 1 < c.toks.len() ==> single(c, p).1.i == p.i + 1
            && single(c, p).1.errors == p.errors + c.toks[p.i + 1].errors,
        c.toks[p.i].tok is Eq || c.toks[p.i].tok is Comma || c.toks[p.i].tok is RBrace || c.toks[p.i].tok
            is RBracket || c.toks[p.i].tok is Eof ==> single(c, p).0 is None,
{
    reveal_strlit("true");
    reveal_strlit("yes");
    reveal_strlit("on");
    reveal_strlit("false");
    reveal_strlit("no");
    reveal_strlit("off");
    assert("on"@.len() == 2 && "off"@.len() == 3 && "true"@.len() == 4 && "yes"@.len() == 3
        && "false"@.len() == 5 && "no"@.len() == 2);
}

/// Whether `n` lines `key = value` start at the token `i`, and something else than a comma
/// follows each.
pub open spec fn has_lines(c: Context, i: int, n: int) -> bool {
    &&& 0 <= i
    &&& 0 <= n
    &&& i + 3 * n < c.toks.len()
    &&& forall|j: int|
        0 <= j < n ==> {
            &&& (#[trigger] c.toks[i + 3 * j]).tok is Ident
            &&& c.toks[i + 3 * j].tok != TokView::Ident("source"@)
            &&& c.toks[i + 3 * j + 1].tok is Eq
            &&& meant_by(c.toks[i + 3 * j + 2].tok) is Some
        }
}

/// Whether `item` is the line that starts at the token `at`.
pub open spec fn is_line(c: Context, at: int, item: ItemView) -> bool {
    item matches ItemView::Assignment { key, value } && TokView::Ident(key.text) == c.toks[at].tok
        && Some(value.value) == meant_by(c.toks[at + 2].tok)
}

/// Lines are read in order, each as the assignment that it is, up to the end of the input,
/// or in a block up to its closing brace.
pub proof fn law_lines_are_read(
    c: Context,
    p: Progress,
    n: int,
    in_block: bool,
    acc: Seq<ItemView>,
    levels: nat,
)
    requires
        has_lines(c, p.i, n),
        c.toks[p.i + 3 * n].tok is Eof || (in_block && c.toks[p.i + 3 * n].tok is RBrace),
    ensures
        ({
            let (items, q) = all_items(c, p, in_block, acc, levels);
            &&& q.i == p.i + 3 * n
            &&& items.len() == acc.len() + n
            &&& items.take(acc.len() as int) == acc
            &&& forall|j: int|
                0 <= j < n ==> is_line(c, p.i + 3 * j, #[trigger] items[acc.len() + j])
        }),
    decreases n,
{
    if n == 0 {
        assert(acc.take(acc.len() as int) =~= acc);
    } else {
        let i = p.i;
        assert(c.toks[i + 3 * 0].tok is Ident);
        assert(c.toks[i + 3 * 0 + 1].tok is Eq && meant_by(c.toks[i + 3 * 0 + 2].tok) is Some);
        let p1 = c.bump(p);
        let p2 = c.bump(p1);
        let p3 = c.bump(p2);
        assert(p1.i == i + 1 && p2.i == i + 2 && p3.i == i + 3);
        law_tokens_are_values(c, p2);
        assert(single(c, p2).1 == p3);
        if n > 1 {
            assert(c.toks[i + 3 * 1].tok is Ident);
        }
        assert(!(c.tok(p3) is Comma));
        let (it, q) = one_item(c, p, levels);
        assert(q == p3);
        assert(is_line(c, i, it->0));
        let found = seq![it->0];
        assert(c.tok(p) != TokView::Ident("source"@)) by {
            assert(c.toks[i + 3 * 0].tok != TokView::Ident("source"@));
        }
        assert(plain_step(c, p, levels) == (found, p3));
        assert(step(c, p, levels) == (found, p3));
        assert forall|j: int| 0 <= j < n - 1 implies {
            &&& (#[trigger] c.toks[p3.i + 3 * j]).tok is Ident
            &&& c.toks[p3.i + 3 * j].tok != TokView::Ident("source"@)
            &&& c.toks[p3.i + 3 * j + 1].tok is Eq
            &&& meant_by(c.toks[p3.i + 3 * j + 2].tok) is Some
        } by {
            assert(p3.i + 3 * j == i + 3 * (j + 1));
            assert(c.toks[i + 3 * (j + 1)].tok is Ident);
        }
        assert(p3.i + 3 * (n - 1) == i + 3 * n);
        law_lines_are_read(c, p3, n - 1, in_block, acc + found, levels);
        let (items, r) = all_items(c, p3, in_block, acc + found, levels);
        assert(all_items(c, p, in_block, acc, levels) == (items, r));
        assert(items.take(acc.len() as int) =~= acc) by {
            assert forall|k: int| 0 <= k < acc.len() implies items[k] == acc[k] by {
                assert(items.take((acc + found).len() as int)[k] == (acc + found)[k]);
            }
        }
        assert forall|j: int| 0 <= j < n implies is_line(
            c,
            i + 3 * j,
            #[trigger] items[acc.len() + j],
        ) by {
            if j == 0 {
                assert(items.take((acc + found).len() as int)[acc.len() as int] == (acc
                    + found)[acc.len() as int]);
            } else {
                assert(items[(acc + found).len() + (j - 1)] == items[acc.len() + j]);
                assert(p3.i + 3 * (j - 1) == i + 3 * j);
            }
        }
    }
}

/// A block is read as its name and the lines between its braces.
pub proof fn law_blocks_are_read(c: Context, p: Progress, n: int, levels: nat)
    requires
        0 <= p.i,
        has_lines(c, p.i + 2, n),
        p.i + 2 + 3 * n < c.toks.len(),
        c.toks[p.i].tok is Ident,
        c.toks[p.i + 1].tok is LBrace,
        c.toks[p.i + 2 + 3 * n].tok is RBrace,
    ensures
        one_item(c, p, levels).0 matches Some(ItemView::Block(b)) && {
            &&& TokView::Ident(b.name.text) == c.toks[p.i].tok
            &&& b.label is None
            &&& b.items.len() == n
            &&& forall|j: int|
                0 <= j < n ==> is_line(c, p.i + 2 + 3 * j, #[trigger] b.items[j])
        },
{
    let q = c.bump(p);
    let r = c.bump(q);
    assert(q.i == p.i + 1 && r.i == p.i + 2);
    law_lines_are_read(c, r, n, true, Seq::empty(), levels);
    let (items, t) = all_items(c, r, true, Seq::empty(), levels);
    assert forall|j: int| 0 <= j < n implies is_line(c, p.i + 2 + 3 * j, #[trigger] items[j]) by {
        assert(items[0 + j] == items[j]);
        assert(is_line(c, r.i + 3 * j, items[Seq::<ItemView>::empty().len() + j]));
    }
}

} // verus!
