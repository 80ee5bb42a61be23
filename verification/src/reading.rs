//! Expressions read back as they were written: what rendering and combining
//! expressions keeps.
use vstd::prelude::*;

use crate::convert;
use crate::expression;
use crate::expression::{Expr, Tok};
use crate::spdx;
use crate::text;

verus! {

/// A word that joins expressions.
pub open spec fn is_operator_word(word: Seq<char>) -> bool {
    text::lower(word) == "and"@ || text::lower(word) == "or"@ || text::lower(word) == "with"@
}

/// A word that can be a license key.
pub open spec fn proper_key(word: Seq<char>) -> bool {
    word.len() > 0 && word.all(|c: char| expression::is_key_char(c)) && !is_operator_word(word)
}

/// An expression whose keys can all be read.
pub open spec fn proper(e: Expr) -> bool
    decreases e,
{
    match e {
        Expr::License(key) => proper_key(key),
        Expr::And(l, r) => proper(*l) && proper(*r),
        Expr::Or(l, r) => proper(*l) && proper(*r),
        Expr::With(l, r) => proper(*l) && proper(*r),
    }
}

/// The granted licenses, in lower case, are enough for an expression: one side of
/// a choice, both sides of anything else.
pub open spec fn meets(e: Expr, granted: Set<Seq<char>>) -> bool
    decreases e,
{
    match e {
        Expr::License(key) => granted.contains(text::lower(key)),
        Expr::And(l, r) => meets(*l, granted) && meets(*r, granted),
        Expr::Or(l, r) => meets(*l, granted) || meets(*r, granted),
        Expr::With(l, r) => meets(*l, granted) && meets(*r, granted),
    }
}

spec fn group(t: Seq<Tok>, grouped: bool) -> Seq<Tok> {
    if grouped {
        seq![Tok::Open] + t + seq![Tok::Close]
    } else {
        t
    }
}

/// The tokens that an expression is written in.
spec fn written(e: Expr) -> Seq<Tok>
    decreases e,
{
    match e {
        Expr::License(key) => seq![Tok::Word(key)],
        Expr::Or(l, r) => written(*l) + seq![Tok::Or] + group(written(*r), *r is Or),
        Expr::And(l, r) => group(written(*l), *l is Or) + seq![Tok::And] + group(
            written(*r),
            *r is Or || *r is And,
        ),
        Expr::With(l, r) => group(written(*l), !(*l is License)) + seq![Tok::With] + group(
            written(*r),
            !(*r is License),
        ),
    }
}

// Pieces of text.
spec fn apart(a: Seq<char>, b: Seq<char>) -> bool {
    a.len() == 0 || b.len() == 0 || expression::ends_piece(a.last()) || expression::ends_piece(
        b[0],
    )
}

proof fn lemma_pieces_not_empty(s: Seq<char>)
    requires
        s.len() > 0,
        !text::is_white_space(s.last()),
    ensures
        expression::pieces_of(s).len() > 0,
{
}

proof fn lemma_pieces_concat(a: Seq<char>, b: Seq<char>)
    requires
        apart(a, b),
    ensures
        expression::pieces_of(a + b) == expression::pieces_of(a) + expression::pieces_of(b),
    decreases b.len(),
{
    if b.len() == 0 {
        assert(a + b == a);
        assert(expression::pieces_of(b) == Seq::<Seq<char>>::empty());
        assert(expression::pieces_of(a) + expression::pieces_of(b) == expression::pieces_of(a));
    } else {
        let whole = a + b;
        let shorter = b.drop_last();
        let c = b.last();
        assert(whole.last() == c);
        assert(whole.drop_last() == a + shorter);
        if shorter.len() > 0 {
            assert(shorter[0] == b[0]);
        }
        lemma_pieces_concat(a, shorter);
        let before = expression::pieces_of(a) + expression::pieces_of(shorter);
        if text::is_white_space(c) {
        } else if shorter.len() == 0 {
            assert(b == seq![c]);
            assert(before == expression::pieces_of(a));
            assert(expression::pieces_of(b) == seq![seq![c]]) by {
                assert(expression::pieces_of(shorter).push(seq![c]) == seq![seq![c]]);
            }
            if a.len() > 0 {
                assert(whole[whole.len() - 2] == a.last());
            }
            assert(expression::pieces_of(whole) == before.push(seq![c]));
            assert(before.push(seq![c]) == expression::pieces_of(a) + seq![seq![c]]);
        } else {
            assert(whole[whole.len() - 2] == shorter.last());
            assert(b[b.len() - 2] == shorter.last());
            let own = expression::pieces_of(shorter);
            if expression::is_paren(c) || expression::ends_piece(shorter.last()) {
                assert(before.push(seq![c]) == expression::pieces_of(a) + own.push(seq![c]));
            } else {
                lemma_pieces_not_empty(shorter);
                assert(before.last() == own.last());
                assert(before.drop_last() == expression::pieces_of(a) + own.drop_last());
                let grown = own.last().push(c);
                assert(before.drop_last().push(grown) == expression::pieces_of(a)
                    + own.drop_last().push(grown));
            }
        }
    }
}

/// A word is one piece.
proof fn lemma_word_is_one_piece(w: Seq<char>)
    requires
        w.len() > 0,
        forall|i: int| 0 <= i < w.len() ==> !expression::ends_piece(#[trigger] w[i]),
    ensures
        expression::pieces_of(w) == seq![w],
    decreases w.len(),
{
    let shorter = w.drop_last();
    assert(w.last() == w[w.len() - 1]);
    if w.len() == 1 {
        assert(expression::pieces_of(shorter) == Seq::<Seq<char>>::empty());
        assert(seq![w.last()] == w);
        assert(expression::pieces_of(shorter).push(seq![w.last()]) == seq![w]);
    } else {
        assert forall|i: int| 0 <= i < shorter.len() implies !expression::ends_piece(
            #[trigger] shorter[i],
        ) by {
            assert(shorter[i] == w[i]);
        }
        lemma_word_is_one_piece(shorter);
        let before = expression::pieces_of(shorter);
        assert(before.drop_last() == Seq::<Seq<char>>::empty());
        assert(shorter.push(w.last()) == w);
        assert(before.drop_last().push(w) == seq![w]);
        assert(!expression::ends_piece(w[w.len() - 2]));
    }
}

/// The tokens of texts that do not run into each other.
proof fn lemma_tokens_concat(a: Seq<char>, b: Seq<char>)
    requires
        apart(a, b),
    ensures
        expression::tokens_of(a + b) == expression::tokens_of(a) + expression::tokens_of(b),
{
    lemma_pieces_concat(a, b);
    assert(expression::tokens_of(a + b) =~= expression::tokens_of(a) + expression::tokens_of(b));
}

/// The token of a word between spaces.
proof fn lemma_spaced_word(spaced: Seq<char>, w: Seq<char>)
    requires
        w.len() > 0,
        forall|i: int| 0 <= i < w.len() ==> !expression::ends_piece(#[trigger] w[i]),
        spaced == seq![' '] + w + seq![' '],
    ensures
        expression::tokens_of(spaced) == seq![expression::classify(w)],
{
    let space = seq![' '];
    assert(space.drop_last() == Seq::<char>::empty());
    assert(expression::pieces_of(Seq::<char>::empty()) == Seq::<Seq<char>>::empty());
    assert(expression::pieces_of(space) == Seq::<Seq<char>>::empty());
    lemma_word_is_one_piece(w);
    lemma_pieces_concat(space, w);
    assert(expression::pieces_of(space + w) == seq![w]);
    lemma_pieces_concat(space + w, space);
    assert(expression::pieces_of(spaced) == seq![w]);
    assert(expression::tokens_of(spaced) =~= seq![expression::classify(w)]);
}

proof fn lemma_operator_tokens()
    ensures
        expression::tokens_of(" AND "@) == seq![Tok::And],
        expression::tokens_of(" OR "@) == seq![Tok::Or],
        expression::tokens_of(" WITH "@) == seq![Tok::With],
        " AND "@.len() > 0 && text::is_white_space(" AND "@[0]) && text::is_white_space(
            " AND "@.last(),
        ),
        " OR "@.len() > 0 && text::is_white_space(" OR "@[0]) && text::is_white_space(
            " OR "@.last(),
        ),
        " WITH "@.len() > 0 && text::is_white_space(" WITH "@[0]) && text::is_white_space(
            " WITH "@.last(),
        ),
{
    reveal_strlit(" AND ");
    reveal_strlit(" OR ");
    reveal_strlit(" WITH ");
    reveal_strlit("and");
    reveal_strlit("or");
    reveal_strlit("with");
    let and = seq!['A', 'N', 'D'];
    let or = seq!['O', 'R'];
    let with = seq!['W', 'I', 'T', 'H'];
    assert(" AND "@ == seq![' '] + and + seq![' ']);
    assert(" OR "@ == seq![' '] + or + seq![' ']);
    assert(" WITH "@ == seq![' '] + with + seq![' ']);
    lemma_spaced_word(" AND "@, and);
    lemma_spaced_word(" OR "@, or);
    lemma_spaced_word(" WITH "@, with);
    assert(text::lower(and) == "and"@);
    assert(text::lower(or) == "or"@);
    assert(text::lower(with) == "with"@);
    assert(text::lower(or).len() == 2 && "and"@.len() == 3);
    assert(text::lower(with).len() == 4 && "or"@.len() == 2);
    assert(expression::classify(and) == Tok::And);
    assert(expression::classify(or) == Tok::Or);
    assert(expression::classify(with) == Tok::With);
}

proof fn lemma_paren_tokens()
    ensures
        expression::tokens_of("("@) == seq![Tok::Open],
        expression::tokens_of(")"@) == seq![Tok::Close],
        "("@.len() == 1 && expression::ends_piece("("@[0]),
        ")"@.len() == 1 && expression::ends_piece(")"@[0]),
{
    reveal_strlit("(");
    reveal_strlit(")");
    let open = "("@;
    let close = ")"@;
    assert(open == seq!['(']);
    assert(close == seq![')']);
    assert(open.drop_last() == Seq::<char>::empty());
    assert(close.drop_last() == Seq::<char>::empty());
    assert(expression::pieces_of(Seq::<char>::empty()) == Seq::<Seq<char>>::empty());
    assert(expression::pieces_of(open) == seq![open]);
    assert(expression::pieces_of(close) == seq![close]);
    assert(close != open) by {
        assert(close[0] != open[0]);
    }
    assert(expression::tokens_of(open) =~= seq![Tok::Open]);
    assert(expression::tokens_of(close) =~= seq![Tok::Close]);
}

proof fn lemma_key_token(key: Seq<char>)
    requires
        proper_key(key),
    ensures
        expression::tokens_of(key) == seq![Tok::Word(key)],
{
    let readable = |c: char| expression::is_key_char(c);
    assert forall|i: int| 0 <= i < key.len() implies !expression::ends_piece(
        #[trigger] key[i],
    ) by {
        assert(readable(key[i]));
    }
    lemma_word_is_one_piece(key);
    assert(readable(key[0]));
    assert(key != seq!['(']) by {
        if key == seq!['('] {
            assert(key[0] == '(');
        }
    }
    assert(key != seq![')']) by {
        if key == seq![')'] {
            assert(key[0] == ')');
        }
    }
    assert(expression::classify(key) == Tok::Word(key));
    assert(expression::tokens_of(key) =~= seq![Tok::Word(key)]);
}

proof fn lemma_grouped_tokens(s: Seq<char>, t: Seq<Tok>, grouped: bool)
    requires
        expression::tokens_of(s) == t,
    ensures
        expression::tokens_of(spdx::grouped_if(s, grouped)) == group(t, grouped),
{
    if grouped {
        lemma_paren_tokens();
        let open = "("@;
        let close = ")"@;
        assert(open.last() == open[0]);
        lemma_tokens_concat(open, s);
        lemma_tokens_concat(open + s, close);
    }
}

/// A text between two others, apart from both.
proof fn lemma_joined_tokens(a: Seq<char>, op: Seq<char>, b: Seq<char>)
    requires
        op.len() > 0,
        text::is_white_space(op[0]),
        text::is_white_space(op.last()),
    ensures
        expression::tokens_of(a + op + b) == expression::tokens_of(a) + expression::tokens_of(op)
            + expression::tokens_of(b),
{
    lemma_tokens_concat(a, op);
    assert((a + op).last() == op.last());
    lemma_tokens_concat(a + op, b);
}

/// Rendering writes the tokens of an expression.
proof fn lemma_rendered_tokens(e: Expr)
    requires
        proper(e),
    ensures
        expression::tokens_of(spdx::rendered(e)) == written(e),
    decreases e,
{
    lemma_operator_tokens();
    match e {
        Expr::License(key) => {
            lemma_key_token(key);
        },
        Expr::Or(l, r) => {
            lemma_rendered_tokens(*l);
            lemma_rendered_tokens(*r);
            let right = spdx::grouped_if(spdx::rendered(*r), *r is Or);
            lemma_grouped_tokens(spdx::rendered(*r), written(*r), *r is Or);
            lemma_joined_tokens(spdx::rendered(*l), " OR "@, right);
        },
        Expr::And(l, r) => {
            lemma_rendered_tokens(*l);
            lemma_rendered_tokens(*r);
            let left = spdx::grouped_if(spdx::rendered(*l), *l is Or);
            let right = spdx::grouped_if(spdx::rendered(*r), *r is Or || *r is And);
            lemma_grouped_tokens(spdx::rendered(*l), written(*l), *l is Or);
            lemma_grouped_tokens(spdx::rendered(*r), written(*r), *r is Or || *r is And);
            lemma_joined_tokens(left, " AND "@, right);
        },
        Expr::With(l, r) => {
            lemma_rendered_tokens(*l);
            lemma_rendered_tokens(*r);
            let left = spdx::grouped_if(spdx::rendered(*l), !(*l is License));
            let right = spdx::grouped_if(spdx::rendered(*r), !(*r is License));
            lemma_grouped_tokens(spdx::rendered(*l), written(*l), !(*l is License));
            lemma_grouped_tokens(spdx::rendered(*r), written(*r), !(*r is License));
            lemma_joined_tokens(left, " WITH "@, right);
        },
    }
}

// Depth of tokens.
spec fn balanced(t: Seq<Tok>) -> bool {
    &&& expression::depth_at(t, t.len() as int) == 0
    &&& forall|i: int| 0 <= i <= t.len() ==> #[trigger] expression::depth_at(t, i) >= 0
}

/// An operator does not stand outside all groups.
spec fn free_of(t: Seq<Tok>, op: Tok) -> bool {
    forall|i: int|
        0 <= i < t.len() ==> !(#[trigger] t[i] == op && expression::depth_at(t, i) == 0)
}

proof fn lemma_depth_left(a: Seq<Tok>, b: Seq<Tok>, i: int)
    requires
        0 <= i <= a.len(),
    ensures
        expression::depth_at(a + b, i) == expression::depth_at(a, i),
    decreases i,
{
    if i > 0 {
        lemma_depth_left(a, b, i - 1);
        assert((a + b)[i - 1] == a[i - 1]);
    }
}

proof fn lemma_depth_right(a: Seq<Tok>, b: Seq<Tok>, j: int)
    requires
        0 <= j <= b.len(),
    ensures
        expression::depth_at(a + b, a.len() + j) == expression::depth_at(a, a.len() as int)
            + expression::depth_at(b, j),
    decreases j,
{
    if j == 0 {
        lemma_depth_left(a, b, a.len() as int);
    } else {
        lemma_depth_right(a, b, j - 1);
        assert((a + b)[a.len() + j - 1] == b[j - 1]);
    }
}

proof fn lemma_balanced_concat(a: Seq<Tok>, b: Seq<Tok>)
    requires
        balanced(a),
        balanced(b),
    ensures
        balanced(a + b),
{
    lemma_depth_right(a, b, b.len() as int);
    assert forall|i: int| 0 <= i <= (a + b).len() implies #[trigger] expression::depth_at(a + b, i)
        >= 0 by {
        if i <= a.len() {
            lemma_depth_left(a, b, i);
        } else {
            lemma_depth_right(a, b, i - a.len());
        }
    }
}

proof fn lemma_free_concat(a: Seq<Tok>, b: Seq<Tok>, op: Tok)
    requires
        balanced(a),
        free_of(a, op),
        free_of(b, op),
    ensures
        free_of(a + b, op),
{
    assert forall|i: int| 0 <= i < (a + b).len() implies !(#[trigger] (a + b)[i] == op
        && expression::depth_at(a + b, i) == 0) by {
        if i < a.len() {
            lemma_depth_left(a, b, i);
            assert((a + b)[i] == a[i]);
        } else {
            lemma_depth_right(a, b, i - a.len());
            assert((a + b)[i] == b[i - a.len()]);
        }
    }
}

/// A token that is no parenthesis.
proof fn lemma_single(tok: Tok)
    requires
        tok != Tok::Open,
        tok != Tok::Close,
    ensures
        balanced(seq![tok]),
        forall|op: Tok| op != tok ==> free_of(seq![tok], op),
{
    let t = seq![tok];
    assert(expression::depth_at(t, 0) == 0);
    assert(expression::depth_at(t, 1) == 0);
}

proof fn lemma_group(t: Seq<Tok>)
    requires
        balanced(t),
    ensures
        balanced(group(t, true)),
        forall|op: Tok| op != Tok::Open && op != Tok::Close ==> free_of(group(t, true), op),
{
    let open = seq![Tok::Open];
    let close = seq![Tok::Close];
    let g = group(t, true);
    assert(g == open + (t + close));
    assert(expression::depth_at(open, 0) == 0);
    assert(expression::depth_at(open, 1) == 1);
    assert(expression::depth_at(close, 0) == 0);
    assert(expression::depth_at(close, 1) == -1);
    let inner = t + close;
    assert forall|i: int| 0 <= i <= g.len() implies #[trigger] expression::depth_at(g, i) >= 0 && (1
        <= i < g.len() ==> expression::depth_at(g, i) >= 1) by {
        if i == 0 {
            lemma_depth_left(open, inner, 0);
        } else {
            lemma_depth_right(open, inner, i - 1);
            if i - 1 <= t.len() {
                lemma_depth_left(t, close, i - 1);
            } else {
                lemma_depth_right(t, close, i - 1 - t.len());
            }
        }
    }
    lemma_depth_right(open, inner, inner.len() as int);
    lemma_depth_right(t, close, 1);
    assert forall|op: Tok| op != Tok::Open && op != Tok::Close implies free_of(g, op) by {
        assert forall|i: int| 0 <= i < g.len() implies !(#[trigger] g[i] == op
            && expression::depth_at(g, i) == 0) by {
            if i == 0 {
                assert(g[0] == Tok::Open);
            } else {
                assert(expression::depth_at(g, i) >= 1);
            }
        }
    }
}

proof fn lemma_group_if(t: Seq<Tok>, grouped: bool)
    requires
        balanced(t),
    ensures
        balanced(group(t, grouped)),
        grouped ==> forall|op: Tok|
            op != Tok::Open && op != Tok::Close ==> free_of(group(t, grouped), op),
{
    if grouped {
        lemma_group(t);
    }
}

proof fn lemma_written(e: Expr)
    ensures
        balanced(written(e)),
        written(e).len() > 0,
        !(e is Or) ==> free_of(written(e), Tok::Or),
        !(e is Or) && !(e is And) ==> free_of(written(e), Tok::And),
        e is License ==> free_of(written(e), Tok::With),
    decreases e,
{
    match e {
        Expr::License(key) => {
            lemma_single(Tok::Word(key));
        },
        Expr::Or(l, r) => {
            lemma_written(*l);
            lemma_written(*r);
            lemma_group_if(written(*r), *r is Or);
            lemma_single(Tok::Or);
            lemma_balanced_concat(written(*l), seq![Tok::Or]);
            lemma_balanced_concat(written(*l) + seq![Tok::Or], group(written(*r), *r is Or));
        },
        Expr::And(l, r) => {
            lemma_written(*l);
            lemma_written(*r);
            let left = group(written(*l), *l is Or);
            let right = group(written(*r), *r is Or || *r is And);
            lemma_group_if(written(*l), *l is Or);
            lemma_group_if(written(*r), *r is Or || *r is And);
            lemma_single(Tok::And);
            lemma_balanced_concat(left, seq![Tok::And]);
            lemma_balanced_concat(left + seq![Tok::And], right);
            lemma_free_concat(left, seq![Tok::And], Tok::Or);
            lemma_free_concat(left + seq![Tok::And], right, Tok::Or);
        },
        Expr::With(l, r) => {
            lemma_written(*l);
            lemma_written(*r);
            let left = group(written(*l), !(*l is License));
            let right = group(written(*r), !(*r is License));
            lemma_group_if(written(*l), !(*l is License));
            lemma_group_if(written(*r), !(*r is License));
            lemma_single(Tok::With);
            lemma_balanced_concat(left, seq![Tok::With]);
            lemma_balanced_concat(left + seq![Tok::With], right);
            lemma_free_concat(left, seq![Tok::With], Tok::Or);
            lemma_free_concat(left + seq![Tok::With], right, Tok::Or);
            lemma_free_concat(left, seq![Tok::With], Tok::And);
            lemma_free_concat(left + seq![Tok::With], right, Tok::And);
        },
    }
}

proof fn lemma_last_top_none(t: Seq<Tok>, op: Tok, n: int)
    requires
        free_of(t, op),
        n <= t.len(),
    ensures
        expression::last_top(t, op, n) == -1,
    decreases n,
{
    if n > 0 {
        assert(!(t[n - 1] == op && expression::depth_at(t, n - 1) == 0));
        lemma_last_top_none(t, op, n - 1);
    }
}

/// The last operator outside all groups is the one between two texts, where the
/// second has none.
proof fn lemma_last_top_between(a: Seq<Tok>, op: Tok, b: Seq<Tok>, n: int)
    requires
        balanced(a),
        free_of(b, op),
        op != Tok::Open,
        op != Tok::Close,
        a.len() < n <= a.len() + 1 + b.len(),
    ensures
        expression::last_top(a + seq![op] + b, op, n) == a.len(),
    decreases n,
{
    let t = a + seq![op] + b;
    let k = a.len() as int;
    let head = a + seq![op];
    if n == k + 1 {
        assert(t[k] == op);
        assert(t == a + (seq![op] + b));
        lemma_depth_left(a, seq![op] + b, k);
    } else {
        let i = n - 1;
        let j = i - k - 1;
        assert(t[i] == b[j]);
        lemma_single(op);
        lemma_balanced_concat(a, seq![op]);
        lemma_depth_right(head, b, j);
        assert(head.len() + j == i);
        assert(!(b[j] == op && expression::depth_at(b, j) == 0));
        lemma_last_top_between(a, op, b, n - 1);
    }
}

/// Two sides of an operator.
proof fn lemma_sides(a: Seq<Tok>, op: Tok, b: Seq<Tok>)
    requires
        balanced(a),
        free_of(b, op),
        op != Tok::Open,
        op != Tok::Close,
    ensures
        ({
            let t = a + seq![op] + b;
            let i = expression::last_top(t, op, t.len() as int);
            i == a.len() && t.take(i) == a && t.skip(i + 1) == b
        }),
{
    let t = a + seq![op] + b;
    lemma_last_top_between(a, op, b, t.len() as int);
    assert(t.take(a.len() as int) == a);
    assert(t.skip(a.len() as int + 1) == b);
}

proof fn lemma_group_denotes(t: Seq<Tok>, e: Expr)
    requires
        balanced(t),
        t.len() > 0,
        expression::denotes_or(t) == Some(e),
    ensures
        expression::denotes_atom(group(t, true)) == Some(e),
        expression::denotes_with(group(t, true)) == Some(e),
        expression::denotes_and(group(t, true)) == Some(e),
        expression::denotes_or(group(t, true)) == Some(e),
{
    let g = group(t, true);
    lemma_group(t);
    assert(g.subrange(1, g.len() - 1) == t);
    assert(g[0] == Tok::Open);
    assert(g.last() == Tok::Close);
    lemma_last_top_none(g, Tok::Or, g.len() as int);
    lemma_last_top_none(g, Tok::And, g.len() as int);
    lemma_last_top_none(g, Tok::With, g.len() as int);
}

proof fn lemma_with_denotes(left: Seq<Tok>, right: Seq<Tok>, l: Expr, r: Expr)
    requires
        balanced(left),
        free_of(right, Tok::With),
        free_of(left + seq![Tok::With] + right, Tok::And),
        free_of(left + seq![Tok::With] + right, Tok::Or),
        expression::denotes_atom(left) == Some(l),
        expression::denotes_atom(right) == Some(r),
    ensures
        ({
            let t = left + seq![Tok::With] + right;
            let e = Some(Expr::With(Box::new(l), Box::new(r)));
            expression::denotes_with(t) == e && expression::denotes_and(t) == e
                && expression::denotes_or(t) == e
        }),
{
    let t = left + seq![Tok::With] + right;
    lemma_sides(left, Tok::With, right);
    assert(expression::denotes_with(t) == Some(Expr::With(Box::new(l), Box::new(r))));
    lemma_last_top_none(t, Tok::And, t.len() as int);
    lemma_last_top_none(t, Tok::Or, t.len() as int);
}

proof fn lemma_and_denotes(left: Seq<Tok>, right: Seq<Tok>, l: Expr, r: Expr)
    requires
        balanced(left),
        free_of(right, Tok::And),
        free_of(left + seq![Tok::And] + right, Tok::Or),
        expression::denotes_and(left) == Some(l),
        expression::denotes_with(right) == Some(r),
    ensures
        ({
            let t = left + seq![Tok::And] + right;
            let e = Some(Expr::And(Box::new(l), Box::new(r)));
            expression::denotes_and(t) == e && expression::denotes_or(t) == e
        }),
{
    let t = left + seq![Tok::And] + right;
    lemma_sides(left, Tok::And, right);
    assert(expression::denotes_and(t) == Some(Expr::And(Box::new(l), Box::new(r))));
    lemma_last_top_none(t, Tok::Or, t.len() as int);
}

proof fn lemma_or_denotes(left: Seq<Tok>, right: Seq<Tok>, l: Expr, r: Expr)
    requires
        balanced(left),
        free_of(right, Tok::Or),
        expression::denotes_or(left) == Some(l),
        expression::denotes_and(right) == Some(r),
    ensures
        expression::denotes_or(left + seq![Tok::Or] + right) == Some(
            Expr::Or(Box::new(l), Box::new(r)),
        ),
{
    lemma_sides(left, Tok::Or, right);
}

/// A key denotes a license.
proof fn lemma_key_denotes(key: Seq<char>)
    requires
        proper_key(key),
    ensures
        expression::denotes_atom(seq![Tok::Word(key)]) == Some(Expr::License(key)),
        expression::denotes_with(seq![Tok::Word(key)]) == Some(Expr::License(key)),
        expression::denotes_and(seq![Tok::Word(key)]) == Some(Expr::License(key)),
        expression::denotes_or(seq![Tok::Word(key)]) == Some(Expr::License(key)),
{
    let t = seq![Tok::Word(key)];
    lemma_single(Tok::Word(key));
    lemma_last_top_none(t, Tok::With, 1);
    lemma_last_top_none(t, Tok::And, 1);
    lemma_last_top_none(t, Tok::Or, 1);
    assert(expression::denotes_atom(t) == Some(Expr::License(key)));
    assert(expression::denotes_with(t) == Some(Expr::License(key)));
    assert(expression::denotes_and(t) == Some(Expr::License(key)));
}

/// The levels at which the tokens of an expression, in a group or not, denote it.
spec fn denoted(t: Seq<Tok>, e: Expr, grouped: bool) -> bool {
    &&& expression::denotes_or(t) == Some(e)
    &&& grouped || !(e is Or) ==> expression::denotes_and(t) == Some(e)
    &&& grouped || !(e is Or) && !(e is And) ==> expression::denotes_with(t) == Some(e)
    &&& grouped || e is License ==> expression::denotes_atom(t) == Some(e)
}

proof fn lemma_group_if_denotes(t: Seq<Tok>, e: Expr, grouped: bool)
    requires
        balanced(t),
        t.len() > 0,
        denoted(t, e, false),
    ensures
        denoted(group(t, grouped), e, grouped),
{
    if grouped {
        lemma_group_denotes(t, e);
    }
}

/// What an expression is written in denotes it.
proof fn lemma_written_denotes(e: Expr)
    requires
        proper(e),
    ensures
        denoted(written(e), e, false),
    decreases e,
{
    lemma_written(e);
    match e {
        Expr::License(key) => {
            lemma_key_denotes(key);
        },
        Expr::With(l, r) => {
            let left = group(written(*l), !(*l is License));
            let right = group(written(*r), !(*r is License));
            lemma_written(*l);
            lemma_written(*r);
            lemma_written_denotes(*l);
            lemma_written_denotes(*r);
            lemma_group_if(written(*l), !(*l is License));
            lemma_group_if(written(*r), !(*r is License));
            lemma_group_if_denotes(written(*l), *l, !(*l is License));
            lemma_group_if_denotes(written(*r), *r, !(*r is License));
            lemma_with_denotes(left, right, *l, *r);
        },
        Expr::And(l, r) => {
            let left = group(written(*l), *l is Or);
            let right = group(written(*r), *r is Or || *r is And);
            lemma_written(*l);
            lemma_written(*r);
            lemma_written_denotes(*l);
            lemma_written_denotes(*r);
            lemma_group_if(written(*l), *l is Or);
            lemma_group_if(written(*r), *r is Or || *r is And);
            lemma_group_if_denotes(written(*l), *l, *l is Or);
            lemma_group_if_denotes(written(*r), *r, *r is Or || *r is And);
            lemma_and_denotes(left, right, *l, *r);
        },
        Expr::Or(l, r) => {
            let right = group(written(*r), *r is Or);
            lemma_written(*l);
            lemma_written(*r);
            lemma_written_denotes(*l);
            lemma_written_denotes(*r);
            lemma_group_if(written(*r), *r is Or);
            lemma_group_if_denotes(written(*r), *r, *r is Or);
            lemma_or_denotes(written(*l), right, *l, *r);
        },
    }
}

/// An expression reads back as it was rendered.
pub proof fn law_rendered_reads_back(e: Expr)
    requires
        proper(e),
    ensures
        expression::parsed(spdx::rendered(e)) == Some(e),
{
    lemma_rendered_tokens(e);
    lemma_written_denotes(e);
}

/// Words that were read from a text: none is empty, and none joins expressions.
spec fn read_words(t: Seq<Tok>) -> bool {
    forall|i: int|
        0 <= i < t.len() ==> (#[trigger] t[i] matches Tok::Word(w) ==> w.len() > 0
            && !is_operator_word(w))
}

proof fn lemma_pieces_have_text(s: Seq<char>)
    ensures
        forall|i: int|
            0 <= i < expression::pieces_of(s).len() ==> (#[trigger] expression::pieces_of(
                s,
            )[i]).len() > 0,
    decreases s.len(),
{
    if s.len() > 0 {
        lemma_pieces_have_text(s.drop_last());
        let before = expression::pieces_of(s.drop_last());
        let after = expression::pieces_of(s);
        assert forall|i: int| 0 <= i < after.len() implies (#[trigger] after[i]).len() > 0 by {
            if i < before.len() - 1 {
                assert(after[i] == before[i]);
            }
        }
    }
}

proof fn lemma_tokens_are_read(s: Seq<char>)
    ensures
        read_words(expression::tokens_of(s)),
{
    lemma_pieces_have_text(s);
    let t = expression::tokens_of(s);
    assert forall|i: int| 0 <= i < t.len() implies (#[trigger] t[i] matches Tok::Word(w) ==> w.len()
        > 0 && !is_operator_word(w)) by {
        assert(t[i] == expression::classify(expression::pieces_of(s)[i]));
    }
}

proof fn lemma_read_parts(t: Seq<Tok>, i: int, j: int)
    requires
        read_words(t),
        0 <= i <= j <= t.len(),
    ensures
        read_words(t.subrange(i, j)),
{
    let part = t.subrange(i, j);
    assert forall|k: int| 0 <= k < part.len() implies (#[trigger] part[k] matches Tok::Word(w)
        ==> w.len() > 0 && !is_operator_word(w)) by {
        assert(part[k] == t[i + k]);
    }
}

proof fn lemma_sides_are_read(t: Seq<Tok>, i: int)
    requires
        read_words(t),
        0 <= i < t.len(),
    ensures
        read_words(t.take(i)),
        read_words(t.skip(i + 1)),
{
    lemma_read_parts(t, 0, i);
    lemma_read_parts(t, i + 1, t.len() as int);
    assert(t.take(i) == t.subrange(0, i));
    assert(t.skip(i + 1) == t.subrange(i + 1, t.len() as int));
}

proof fn lemma_or_is_proper(t: Seq<Tok>)
    requires
        read_words(t),
    ensures
        expression::denotes_or(t) is Some ==> proper(expression::denotes_or(t)->0),
    decreases t.len(), 3nat,
{
    let i = expression::last_top(t, Tok::Or, t.len() as int);
    if 0 <= i < t.len() {
        lemma_sides_are_read(t, i);
        lemma_or_is_proper(t.take(i));
        lemma_and_is_proper(t.skip(i + 1));
    } else {
        lemma_and_is_proper(t);
    }
}

proof fn lemma_and_is_proper(t: Seq<Tok>)
    requires
        read_words(t),
    ensures
        expression::denotes_and(t) is Some ==> proper(expression::denotes_and(t)->0),
    decreases t.len(), 2nat,
{
    let i = expression::last_top(t, Tok::And, t.len() as int);
    if 0 <= i < t.len() {
        lemma_sides_are_read(t, i);
        lemma_and_is_proper(t.take(i));
        lemma_with_is_proper(t.skip(i + 1));
    } else {
        lemma_with_is_proper(t);
    }
}

proof fn lemma_with_is_proper(t: Seq<Tok>)
    requires
        read_words(t),
    ensures
        expression::denotes_with(t) is Some ==> proper(expression::denotes_with(t)->0),
    decreases t.len(), 1nat,
{
    let i = expression::last_top(t, Tok::With, t.len() as int);
    if 0 <= i < t.len() {
        lemma_sides_are_read(t, i);
        lemma_atom_is_proper(t.take(i));
        lemma_atom_is_proper(t.skip(i + 1));
    } else {
        lemma_atom_is_proper(t);
    }
}

proof fn lemma_atom_is_proper(t: Seq<Tok>)
    requires
        read_words(t),
    ensures
        expression::denotes_atom(t) is Some ==> proper(expression::denotes_atom(t)->0),
    decreases t.len(), 0nat,
{
    if t.len() == 1 {
        assert(t[0] matches Tok::Word(w) ==> w.len() > 0 && !is_operator_word(w));
    } else if t.len() >= 3 && t[0] == Tok::Open && t.last() == Tok::Close {
        lemma_read_parts(t, 1, t.len() - 1);
        lemma_or_is_proper(t.subrange(1, t.len() - 1));
    }
}

/// What can be read is an expression whose keys can all be read.
pub proof fn law_parsed_is_proper(s: Seq<char>)
    ensures
        expression::parsed(s) is Some ==> proper(expression::parsed(s)->0),
{
    lemma_tokens_are_read(s);
    lemma_or_is_proper(expression::tokens_of(s));
}

/// The normal form of an expression means what the expression means, and is its
/// own normal form.
pub proof fn law_normal_form_keeps_meaning(s: Seq<char>)
    requires
        expression::parsed(s) is Some,
    ensures
        expression::parsed(spdx::rendered(expression::parsed(s)->0)) == expression::parsed(s),
{
    law_parsed_is_proper(s);
    law_rendered_reads_back(expression::parsed(s)->0);
}

/// The tokens of one side of a conjunction.
spec fn conjunct(e: Expr) -> Seq<Tok> {
    group(written(e), e is Or)
}

proof fn lemma_conjunct(e: Expr)
    requires
        proper(e),
    ensures
        balanced(conjunct(e)),
        free_of(conjunct(e), Tok::Or),
        !(e is And) ==> free_of(conjunct(e), Tok::And),
        expression::denotes_and(conjunct(e)) == Some(e),
        !(e is And) ==> expression::denotes_with(conjunct(e)) == Some(e),
{
    lemma_written(e);
    lemma_written_denotes(e);
    lemma_group_if(written(e), e is Or);
    lemma_group_if_denotes(written(e), e, e is Or);
}

/// One more conjunct adds its keys behind those that are there.
proof fn lemma_add_conjunct(t: Seq<Tok>, x: Expr, e: Expr)
    requires
        balanced(t),
        free_of(t, Tok::Or),
        expression::denotes_and(t) == Some(x),
        proper(e),
    ensures
        ({
            let more = t + seq![Tok::And] + conjunct(e);
            &&& balanced(more)
            &&& free_of(more, Tok::Or)
            &&& expression::denotes_and(more) is Some
            &&& expression::keys_of(expression::denotes_and(more)->0) == expression::keys_of(x)
                + expression::keys_of(e)
            &&& forall|granted: Set<Seq<char>>| #[trigger]
                meets(expression::denotes_and(more)->0, granted) == (meets(x, granted) && meets(
                    e,
                    granted,
                ))
        }),
    decreases e,
{
    let more = t + seq![Tok::And] + conjunct(e);
    lemma_conjunct(e);
    lemma_single(Tok::And);
    lemma_balanced_concat(t, seq![Tok::And]);
    lemma_balanced_concat(t + seq![Tok::And], conjunct(e));
    lemma_free_concat(t, seq![Tok::And], Tok::Or);
    lemma_free_concat(t + seq![Tok::And], conjunct(e), Tok::Or);
    match e {
        Expr::And(l, r) => {
            let left = conjunct(*l);
            let right = group(written(*r), *r is Or || *r is And);
            lemma_add_conjunct(t, x, *l);
            let start = t + seq![Tok::And] + left;
            let y = expression::denotes_and(start)->0;
            assert(more == start + seq![Tok::And] + right);
            lemma_written(*r);
            lemma_written_denotes(*r);
            lemma_group_if(written(*r), *r is Or || *r is And);
            lemma_group_if_denotes(written(*r), *r, *r is Or || *r is And);
            lemma_and_denotes(start, right, y, *r);
            assert(expression::keys_of(expression::denotes_and(more)->0) == expression::keys_of(y)
                + expression::keys_of(*r));
            assert(expression::keys_of(x) + expression::keys_of(*l) + expression::keys_of(*r)
                == expression::keys_of(x) + (expression::keys_of(*l) + expression::keys_of(*r)));
            assert forall|granted: Set<Seq<char>>| #[trigger]
                meets(expression::denotes_and(more)->0, granted) == (meets(x, granted) && meets(
                    e,
                    granted,
                )) by {
                assert(meets(y, granted) == (meets(x, granted) && meets(*l, granted)));
            }
        },
        _ => {
            lemma_and_denotes(t, conjunct(e), x, e);
        },
    }
}

/// The keys of several expressions.
pub open spec fn all_keys(expressions: Seq<Seq<char>>) -> Set<Seq<char>>
    decreases expressions.len(),
{
    if expressions.len() == 0 {
        Set::empty()
    } else {
        all_keys(expressions.drop_last()).union(
            expression::expression_keys(text::trim_of(expressions.last())),
        )
    }
}

/// The keys of several operands.
spec fn operand_keys(operands: Seq<spdx::Operand>) -> Set<Seq<char>>
    decreases operands.len(),
{
    if operands.len() == 0 {
        Set::empty()
    } else {
        operand_keys(operands.drop_last()).union(
            expression::expression_keys(operands.last().text),
        )
    }
}

/// The granted licenses are enough for all operands.
spec fn operands_met(operands: Seq<spdx::Operand>, granted: Set<Seq<char>>) -> bool {
    forall|i: int|
        0 <= i < operands.len() ==> text_met(#[trigger] operands[i].text, granted)
}

/// The granted licenses are enough for a text that is an expression.
pub open spec fn text_met(s: Seq<char>, granted: Set<Seq<char>>) -> bool {
    expression::parsed(s) is Some && meets(expression::parsed(s)->0, granted)
}

/// An operand is an expression in its normal form.
spec fn reads_as(operand: spdx::Operand, e: Expr) -> bool {
    proper(e) && operand.text == spdx::rendered(e) && operand.choice == (e is Or)
}

spec fn is_readable(operand: spdx::Operand) -> bool {
    exists|e: Expr| reads_as(operand, e)
}

spec fn readable(operands: Seq<spdx::Operand>) -> bool {
    forall|i: int| 0 <= i < operands.len() ==> is_readable(#[trigger] operands[i])
}

proof fn lemma_operand_keys_contains(operands: Seq<spdx::Operand>, i: int)
    requires
        0 <= i < operands.len(),
    ensures
        expression::expression_keys(operands[i].text).subset_of(operand_keys(operands)),
    decreases operands.len(),
{
    if i < operands.len() - 1 {
        assert(operands.drop_last()[i] == operands[i]);
        lemma_operand_keys_contains(operands.drop_last(), i);
    }
}

proof fn lemma_operands(expressions: Seq<Seq<char>>)
    requires
        spdx::all_parse(expressions),
    ensures
        readable(spdx::operands_of(expressions)),
        operand_keys(spdx::operands_of(expressions)) == all_keys(expressions),
    decreases expressions.len(),
{
    if expressions.len() > 0 {
        let fewer = expressions.drop_last();
        assert forall|i: int|
            0 <= i < fewer.len() && text::trim_of(
                #[trigger] fewer[i],
            ).len() > 0 implies expression::parsed(text::trim_of(fewer[i])) is Some by {
            assert(fewer[i] == expressions[i]);
        }
        lemma_operands(fewer);
        let before = spdx::operands_of(fewer);
        let after = spdx::operands_of(expressions);
        let last = text::trim_of(expressions.last());
        assert(expressions[expressions.len() - 1] == expressions.last());
        if last.len() == 0 {
            assert(last == Seq::<char>::empty());
            lemma_nothing_has_no_keys();
            assert(all_keys(expressions) =~= all_keys(fewer));
        } else {
            let e = expression::parsed(last)->0;
            let operand = spdx::operand_of(last);
            law_parsed_is_proper(last);
            law_rendered_reads_back(e);
            assert(reads_as(operand, e));
            assert(expression::expression_keys(operand.text) == expression::expression_keys(last));
            if before.contains(operand) {
                let i = choose|i: int| 0 <= i < before.len() && before[i] == operand;
                lemma_operand_keys_contains(before, i);
                assert(all_keys(expressions) =~= all_keys(fewer));
            } else {
                assert(after.drop_last() == before);
                assert(after.last() == operand);
                assert(is_readable(operand));
                assert forall|i: int| 0 <= i < after.len() implies is_readable(
                    #[trigger] after[i],
                ) by {
                    if i < before.len() {
                        assert(after[i] == before[i]);
                    }
                }
            }
        }
    }
}

pub proof fn lemma_nothing_has_no_keys()
    ensures
        expression::expression_keys(Seq::<char>::empty()) == Set::<Seq<char>>::empty(),
{
    let t = expression::tokens_of(Seq::<char>::empty());
    assert(t =~= Seq::<Tok>::empty());
    assert(expression::denotes_atom(t) is None);
    assert(expression::denotes_with(t) is None);
    assert(expression::denotes_and(t) is None);
    assert(expression::denotes_or(t) is None);
}

/// A conjunction of readable operands can be read, at the level of conjunctions,
/// and has their keys.
proof fn lemma_conjunction(operands: Seq<spdx::Operand>)
    requires
        operands.len() > 0,
        readable(operands),
    ensures
        ({
            let t = expression::tokens_of(spdx::conjunction(operands));
            &&& balanced(t)
            &&& free_of(t, Tok::Or)
            &&& expression::denotes_and(t) is Some
            &&& expression::key_set(expression::denotes_and(t)->0) == operand_keys(operands)
            &&& forall|granted: Set<Seq<char>>| #[trigger]
                meets(expression::denotes_and(t)->0, granted) == operands_met(operands, granted)
        }),
    decreases operands.len(),
{
    let last = operands.last();
    assert(operands[operands.len() - 1] == last);
    assert(is_readable(last));
    let e = choose|e: Expr| reads_as(last, e);
    let shown = spdx::grouped_if(last.text, last.choice);
    lemma_rendered_tokens(e);
    lemma_grouped_tokens(last.text, written(e), last.choice);
    assert(expression::tokens_of(shown) == conjunct(e));
    lemma_conjunct(e);
    law_rendered_reads_back(e);
    assert(expression::expression_keys(last.text) == expression::key_set(e));
    let fewer = operands.drop_last();
    if operands.len() == 1 {
        assert(operand_keys(fewer) == Set::<Seq<char>>::empty());
        assert(operand_keys(operands) =~= expression::key_set(e));
        assert(operands[0] == last);
    } else {
        assert forall|i: int| 0 <= i < fewer.len() implies is_readable(#[trigger] fewer[i]) by {
            assert(fewer[i] == operands[i]);
        }
        lemma_conjunction(fewer);
        let start = expression::tokens_of(spdx::conjunction(fewer));
        let x = expression::denotes_and(start)->0;
        lemma_operator_tokens();
        lemma_joined_tokens(spdx::conjunction(fewer), " AND "@, shown);
        lemma_add_conjunct(start, x, e);
        let t = start + seq![Tok::And] + conjunct(e);
        let y = expression::denotes_and(t)->0;
        lemma_key_set_concat(x, e, y);
        assert(operand_keys(operands) =~= expression::key_set(y));
        assert forall|granted: Set<Seq<char>>| #[trigger] meets(y, granted) == operands_met(
            operands,
            granted,
        ) by {
            assert(meets(x, granted) == operands_met(fewer, granted));
            if operands_met(operands, granted) {
                assert forall|i: int| 0 <= i < fewer.len() implies text_met(
                    #[trigger] fewer[i].text,
                    granted,
                ) by {
                    assert(fewer[i] == operands[i]);
                }
                assert(text_met(operands[operands.len() - 1].text, granted));
            }
            if operands_met(fewer, granted) && meets(e, granted) {
                assert forall|i: int| 0 <= i < operands.len() implies text_met(
                    #[trigger] operands[i].text,
                    granted,
                ) by {
                    if i < fewer.len() {
                        assert(fewer[i] == operands[i]);
                    }
                }
            }
        }
    }
}

proof fn lemma_key_set_concat(a: Expr, b: Expr, whole: Expr)
    requires
        expression::keys_of(whole) == expression::keys_of(a) + expression::keys_of(b),
    ensures
        expression::key_set(whole) == expression::key_set(a).union(expression::key_set(b)),
{
    let low = |key: Seq<char>| text::lower(key);
    let first = expression::keys_of(a).map_values(low);
    let second = expression::keys_of(b).map_values(low);
    let both = expression::keys_of(whole).map_values(low);
    assert(both =~= first + second);
    assert forall|key: Seq<char>| both.to_set().contains(key) == (first.to_set().contains(key)
        || second.to_set().contains(key)) by {
        if first.contains(key) {
            let i = choose|i: int| 0 <= i < first.len() && first[i] == key;
            assert(both[i] == key);
        }
        if second.contains(key) {
            let i = choose|i: int| 0 <= i < second.len() && second[i] == key;
            assert(both[first.len() + i] == key);
        }
        if both.contains(key) {
            let i = choose|i: int| 0 <= i < both.len() && both[i] == key;
            if i < first.len() {
                assert(first[i] == key);
            } else {
                assert(second[i - first.len()] == key);
            }
        }
    }
    assert(both.to_set() =~= first.to_set().union(second.to_set()));
}

/// Expressions that can all be read combine into one that can be read, with the
/// keys of all of them and no others.
pub proof fn law_combined_keeps_keys(expressions: Seq<Seq<char>>)
    requires
        spdx::all_parse(expressions),
        spdx::combined(expressions) is Some,
    ensures
        expression::parsed(spdx::combined(expressions)->0) is Some,
        expression::expression_keys(spdx::combined(expressions)->0) == all_keys(expressions),
{
    lemma_operands(expressions);
    let operands = spdx::operands_of(expressions);
    if operands.len() == 1 {
        assert(is_readable(operands[0]));
        let e = choose|e: Expr| reads_as(operands[0], e);
        law_rendered_reads_back(e);
        assert(operands.drop_last() =~= Seq::<spdx::Operand>::empty());
        assert(operand_keys(operands.drop_last()) == Set::<Seq<char>>::empty());
        assert(operand_keys(operands) =~= expression::expression_keys(operands[0].text));
    } else {
        lemma_conjunction(operands);
        let t = expression::tokens_of(spdx::conjunction(operands));
        lemma_last_top_none(t, Tok::Or, t.len() as int);
    }
}

proof fn lemma_grouped_is_trimmed(s: Seq<char>, grouped: bool)
    requires
        s.len() > 0,
        text::is_trimmed(s),
    ensures
        spdx::grouped_if(s, grouped).len() > 0,
        text::is_trimmed(spdx::grouped_if(s, grouped)),
{
    if grouped {
        reveal_strlit("(");
        reveal_strlit(")");
        let g = spdx::grouped(s);
        assert(g[0] == '(');
        assert(g.last() == ')');
    }
}

/// Rendered text neither begins nor ends with white space.
proof fn lemma_rendered_is_trimmed(e: Expr)
    requires
        proper(e),
    ensures
        spdx::rendered(e).len() > 0,
        text::is_trimmed(spdx::rendered(e)),
    decreases e,
{
    match e {
        Expr::License(key) => {
            let readable = |c: char| expression::is_key_char(c);
            assert(readable(key[0]));
            assert(readable(key[key.len() - 1]));
        },
        Expr::Or(l, r) => {
            lemma_rendered_is_trimmed(*l);
            lemma_rendered_is_trimmed(*r);
            lemma_grouped_is_trimmed(spdx::rendered(*r), *r is Or);
            let s = spdx::rendered(e);
            assert(s[0] == spdx::rendered(*l)[0]);
            assert(s.last() == spdx::grouped_if(spdx::rendered(*r), *r is Or).last());
        },
        Expr::And(l, r) => {
            lemma_rendered_is_trimmed(*l);
            lemma_rendered_is_trimmed(*r);
            lemma_grouped_is_trimmed(spdx::rendered(*l), *l is Or);
            lemma_grouped_is_trimmed(spdx::rendered(*r), *r is Or || *r is And);
            let s = spdx::rendered(e);
            assert(s[0] == spdx::grouped_if(spdx::rendered(*l), *l is Or)[0]);
            assert(s.last() == spdx::grouped_if(
                spdx::rendered(*r),
                *r is Or || *r is And,
            ).last());
        },
        Expr::With(l, r) => {
            lemma_rendered_is_trimmed(*l);
            lemma_rendered_is_trimmed(*r);
            lemma_grouped_is_trimmed(spdx::rendered(*l), !(*l is License));
            lemma_grouped_is_trimmed(spdx::rendered(*r), !(*r is License));
            let s = spdx::rendered(e);
            assert(s[0] == spdx::grouped_if(spdx::rendered(*l), !(*l is License))[0]);
            assert(s.last() == spdx::grouped_if(spdx::rendered(*r), !(*r is License)).last());
        },
    }
}

/// One expression alone combines into its normal form.
proof fn lemma_combined_single(s: Seq<char>)
    requires
        s.len() > 0,
        text::is_trimmed(s),
    ensures
        spdx::combined_strict(seq![s]) == (match expression::parsed(s) {
            Some(e) => Some(spdx::rendered(e)),
            None => None,
        }),
{
    let list = seq![s];
    text::lemma_trim(s);
    assert(list.drop_last() == Seq::<Seq<char>>::empty());
    assert(list.last() == s);
    assert(list[0] == s);
    assert(spdx::operands_of(list.drop_last()) == Seq::<spdx::Operand>::empty());
    assert(spdx::operands_of(list) == seq![spdx::operand_of(s)]);
    if expression::parsed(s) is Some {
        assert(spdx::all_parse(list));
    } else {
        assert(!spdx::all_parse(list));
    }
}

/// The normal form of an SPDX expression is its own normal form.
pub proof fn law_normalized_spdx_idempotent(s: Option<Seq<char>>)
    ensures
        convert::normalized_spdx(Some(convert::normalized_spdx(s))) == convert::normalized_spdx(s),
{
    let once = convert::normalized_spdx(s);
    if s is Some {
        let trimmed = text::trim_of(s->0);
        text::lemma_trim(s->0);
        if trimmed.len() > 0 {
            lemma_combined_single(trimmed);
            law_parsed_is_proper(trimmed);
            if expression::parsed(trimmed) is Some {
                let e = expression::parsed(trimmed)->0;
                lemma_rendered_is_trimmed(e);
                law_rendered_reads_back(e);
                text::lemma_trim(once);
                lemma_combined_single(once);
            }
        }
    }
    if once.len() == 0 {
        text::lemma_trim(once);
    }
}

proof fn lemma_blank_has_no_pieces(s: Seq<char>)
    requires
        text::is_blank(s),
    ensures
        expression::pieces_of(s) == Seq::<Seq<char>>::empty(),
    decreases s.len(),
{
    if s.len() > 0 {
        assert(text::is_white_space(s[s.len() - 1]));
        assert forall|i: int| 0 <= i < s.drop_last().len() implies text::is_white_space(
            #[trigger] s.drop_last()[i],
        ) by {
            assert(s[i] == s.drop_last()[i]);
        }
        lemma_blank_has_no_pieces(s.drop_last());
    }
}

/// White space at the ends of a text does not change what it says.
pub proof fn law_white_space_around_does_not_matter(s: Seq<char>)
    ensures
        expression::parsed(text::trim_of(s)) == expression::parsed(s),
        text::trim_of(s).len() == 0 ==> expression::parsed(s) is None,
{
    let t = text::trim_of(s);
    let (a, b) = text::law_trim_takes_white_space_alone(s);
    lemma_blank_has_no_pieces(a);
    lemma_blank_has_no_pieces(b);
    if a.len() > 0 {
        assert(text::is_white_space(a[a.len() - 1]));
    }
    if b.len() > 0 {
        assert(text::is_white_space(b[0]));
    }
    lemma_pieces_concat(a, t);
    lemma_pieces_concat(a + t, b);
    assert(expression::pieces_of(s) == expression::pieces_of(t));
    if t.len() == 0 {
        assert(t == Seq::<char>::empty());
        let tokens = expression::tokens_of(t);
        assert(tokens =~= Seq::<Tok>::empty());
        assert(expression::denotes_atom(tokens) is None);
        assert(expression::denotes_with(tokens) is None);
        assert(expression::denotes_and(tokens) is None);
    }
}

/// The granted licenses are enough for all expressions that are not blank.
pub open spec fn all_met(expressions: Seq<Seq<char>>, granted: Set<Seq<char>>) -> bool {
    forall|i: int|
        0 <= i < expressions.len() && text::trim_of(#[trigger] expressions[i]).len() > 0
            ==> text_met(expressions[i], granted)
}

proof fn lemma_operands_met(expressions: Seq<Seq<char>>, granted: Set<Seq<char>>)
    requires
        spdx::all_parse(expressions),
    ensures
        operands_met(spdx::operands_of(expressions), granted) == all_met(expressions, granted),
    decreases expressions.len(),
{
    if expressions.len() > 0 {
        let fewer = expressions.drop_last();
        assert forall|i: int|
            0 <= i < fewer.len() && text::trim_of(
                #[trigger] fewer[i],
            ).len() > 0 implies expression::parsed(text::trim_of(fewer[i])) is Some by {
            assert(fewer[i] == expressions[i]);
        }
        lemma_operands_met(fewer, granted);
        let n = expressions.len() - 1;
        let before = spdx::operands_of(fewer);
        let after = spdx::operands_of(expressions);
        let last = text::trim_of(expressions.last());
        assert(expressions[n] == expressions.last());
        law_white_space_around_does_not_matter(expressions.last());
        if all_met(expressions, granted) {
            assert forall|i: int|
                0 <= i < fewer.len() && text::trim_of(#[trigger] fewer[i]).len() > 0 implies text_met(
                fewer[i],
                granted,
            ) by {
                assert(fewer[i] == expressions[i]);
            }
        }
        if last.len() == 0 {
            if all_met(fewer, granted) {
                assert forall|i: int|
                    0 <= i < expressions.len() && text::trim_of(#[trigger] expressions[i]).len()
                        > 0 implies text_met(expressions[i], granted) by {
                    if i < n {
                        assert(fewer[i] == expressions[i]);
                    }
                }
            }
        } else {
            let e = expression::parsed(last)->0;
            let operand = spdx::operand_of(last);
            law_parsed_is_proper(last);
            law_rendered_reads_back(e);
            assert(text_met(operand.text, granted) == text_met(expressions.last(), granted));
            let added = if before.contains(operand) {
                before
            } else {
                before.push(operand)
            };
            assert(after == added);
            if operands_met(after, granted) {
                assert forall|i: int| 0 <= i < before.len() implies text_met(
                    #[trigger] before[i].text,
                    granted,
                ) by {
                    assert(after[i] == before[i]);
                }
                if before.contains(operand) {
                    let k = choose|k: int| 0 <= k < before.len() && before[k] == operand;
                    assert(text_met(after[k].text, granted));
                } else {
                    assert(text_met(after[before.len() as int].text, granted));
                }
                assert forall|i: int|
                    0 <= i < expressions.len() && text::trim_of(#[trigger] expressions[i]).len()
                        > 0 implies text_met(expressions[i], granted) by {
                    if i < n {
                        assert(fewer[i] == expressions[i]);
                    }
                }
            }
            if all_met(expressions, granted) {
                assert(text_met(expressions[n], granted));
                assert forall|i: int| 0 <= i < after.len() implies text_met(
                    #[trigger] after[i].text,
                    granted,
                ) by {
                    if i < before.len() {
                        assert(after[i] == before[i]);
                    }
                }
            }
        }
    }
}

/// Combined expressions ask for what all of them ask for, and for nothing else:
/// licenses are enough for the combination if and only if they are enough for each.
pub proof fn law_combined_asks_for_all(expressions: Seq<Seq<char>>, granted: Set<Seq<char>>)
    requires
        spdx::all_parse(expressions),
        spdx::combined(expressions) is Some,
    ensures
        text_met(spdx::combined(expressions)->0, granted) == all_met(expressions, granted),
{
    lemma_operands(expressions);
    lemma_operands_met(expressions, granted);
    let operands = spdx::operands_of(expressions);
    if operands.len() == 1 {
        assert(is_readable(operands[0]));
    } else {
        lemma_conjunction(operands);
        let t = expression::tokens_of(spdx::conjunction(operands));
        lemma_last_top_none(t, Tok::Or, t.len() as int);
    }
}

/// Expressions combine into something unless all of them are blank.
pub proof fn law_combined_where_there_is_one(expressions: Seq<Seq<char>>)
    ensures
        spdx::combined(expressions) is Some == exists|i: int|
            0 <= i < expressions.len() && text::trim_of(#[trigger] expressions[i]).len() > 0,
    decreases expressions.len(),
{
    if expressions.len() > 0 {
        let fewer = expressions.drop_last();
        law_combined_where_there_is_one(fewer);
        assert(expressions[expressions.len() - 1] == expressions.last());
        if spdx::combined(fewer) is Some {
            let i = choose|i: int|
                0 <= i < fewer.len() && text::trim_of(#[trigger] fewer[i]).len() > 0;
            assert(text::trim_of(expressions[i]).len() > 0);
        }
        if exists|i: int|
            0 <= i < expressions.len() && text::trim_of(#[trigger] expressions[i]).len() > 0 {
            let i = choose|i: int|
                0 <= i < expressions.len() && text::trim_of(#[trigger] expressions[i]).len() > 0;
            if i < fewer.len() {
                assert(text::trim_of(fewer[i]).len() > 0);
            }
        }
    }
}

/// A key is one of the keys of several expressions if and only if it is a key of
/// one of them.
proof fn lemma_all_keys_contains(expressions: Seq<Seq<char>>, key: Seq<char>)
    ensures
        all_keys(expressions).contains(key) == exists|i: int|
            0 <= i < expressions.len() && expression::expression_keys(
                #[trigger] expressions[i],
            ).contains(key),
    decreases expressions.len(),
{
    if expressions.len() > 0 {
        let fewer = expressions.drop_last();
        let n = expressions.len() - 1;
        lemma_all_keys_contains(fewer, key);
        law_white_space_around_does_not_matter(expressions.last());
        assert(expressions[n] == expressions.last());
        if all_keys(fewer).contains(key) {
            let i = choose|i: int|
                0 <= i < fewer.len() && expression::expression_keys(#[trigger] fewer[i]).contains(
                    key,
                );
            assert(expression::expression_keys(expressions[i]).contains(key));
        }
        if exists|i: int|
            0 <= i < expressions.len() && expression::expression_keys(
                #[trigger] expressions[i],
            ).contains(key) {
            let i = choose|i: int|
                0 <= i < expressions.len() && expression::expression_keys(
                    #[trigger] expressions[i],
                ).contains(key);
            if i < n {
                assert(expression::expression_keys(fewer[i]).contains(key));
            }
        }
    }
}

/// The keys of combined expressions are the keys of each of them, and no others.
pub proof fn law_combined_names_every_license(expressions: Seq<Seq<char>>, key: Seq<char>)
    requires
        spdx::all_parse(expressions),
        spdx::combined(expressions) is Some,
    ensures
        expression::expression_keys(spdx::combined(expressions)->0).contains(key) == exists|i: int|
            0 <= i < expressions.len() && expression::expression_keys(
                #[trigger] expressions[i],
            ).contains(key),
{
    law_combined_keeps_keys(expressions);
    lemma_all_keys_contains(expressions, key);
}

proof fn lemma_unique_of(expressions: Seq<Seq<char>>)
    ensures
        forall|i: int|
            0 <= i < spdx::unique_of(expressions).len() ==> expressions.contains(
                #[trigger] spdx::unique_of(expressions)[i],
            ),
        forall|i: int|
            0 <= i < expressions.len() && (#[trigger] expressions[i]).len() > 0
                ==> spdx::unique_of(expressions).contains(expressions[i]),
    decreases expressions.len(),
{
    if expressions.len() > 0 {
        let fewer = expressions.drop_last();
        lemma_unique_of(fewer);
        let before = spdx::unique_of(fewer);
        let after = spdx::unique_of(expressions);
        let n = expressions.len() - 1;
        assert(expressions[n] == expressions.last());
        assert forall|i: int| 0 <= i < after.len() implies expressions.contains(
            #[trigger] after[i],
        ) by {
            if i < before.len() {
                assert(after[i] == before[i]);
                let k = choose|k: int| 0 <= k < fewer.len() && fewer[k] == before[i];
                assert(expressions[k] == before[i]);
            }
        }
        assert forall|i: int|
            0 <= i < expressions.len() && (#[trigger] expressions[i]).len() > 0 implies after.contains(
            expressions[i],
        ) by {
            if i < n {
                assert(fewer[i] == expressions[i]);
                let k = choose|k: int| 0 <= k < before.len() && before[k] == fewer[i];
                assert(after[k] == before[k]);
            } else if !before.contains(expressions.last()) {
                assert(after[before.len() as int] == expressions.last());
            }
        }
    }
}

/// The primary one of several expressions is one of them, and names every license
/// that any of them names.
pub proof fn law_primary_names_every_license(expressions: Seq<Seq<char>>, key: Seq<char>)
    requires
        spdx::primary(expressions) is Some,
        forall|i: int|
            0 <= i < expressions.len() ==> expression::parsed(#[trigger] expressions[i]) is Some,
    ensures
        expressions.contains(spdx::primary(expressions)->0),
        expression::expression_keys(spdx::primary(expressions)->0).contains(key) == exists|i: int|
            0 <= i < expressions.len() && expression::expression_keys(
                #[trigger] expressions[i],
            ).contains(key),
{
    let list = spdx::unique_of(expressions);
    let chosen = spdx::primary(expressions)->0;
    lemma_unique_of(expressions);
    let j = if list.len() == 1 {
        0
    } else {
        choose|j: int| spdx::covers_others(list, j)
    };
    assert(chosen == list[j]);
    assert(expressions.contains(list[j]));
    let own = choose|i: int| 0 <= i < expressions.len() && expressions[i] == chosen;
    assert(expressions[own] == chosen);
    if exists|i: int|
        0 <= i < expressions.len() && expression::expression_keys(
            #[trigger] expressions[i],
        ).contains(key) {
        let i = choose|i: int|
            0 <= i < expressions.len() && expression::expression_keys(
                #[trigger] expressions[i],
            ).contains(key);
        lemma_nothing_has_no_keys();
        if expressions[i].len() == 0 {
            assert(expressions[i] =~= Seq::<char>::empty());
        }
        assert(list.contains(expressions[i]));
        let k = choose|k: int| 0 <= k < list.len() && list[k] == expressions[i];
        if k != j {
            assert(spdx::covered_by(list[k], list[j]));
        }
    }
}

/// The words among the tokens of an expression.
pub open spec fn words_among(t: Seq<Tok>) -> Seq<Seq<char>>
    decreases t.len(),
{
    if t.len() == 0 {
        seq![]
    } else {
        match t.last() {
            Tok::Word(w) => words_among(t.drop_last()).push(w),
            _ => words_among(t.drop_last()),
        }
    }
}

proof fn lemma_words_among_concat(a: Seq<Tok>, b: Seq<Tok>)
    ensures
        words_among(a + b) == words_among(a) + words_among(b),
    decreases b.len(),
{
    if b.len() == 0 {
        assert(a + b == a);
    } else {
        lemma_words_among_concat(a, b.drop_last());
        assert((a + b).drop_last() == a + b.drop_last());
        assert((a + b).last() == b.last());
    }
}

/// The words and the operators of a sequence of tokens are those of the expression.
spec fn shape_shown(t: Seq<Tok>, e: Expr) -> bool {
    &&& expression::keys_of(e) == words_among(t)
    &&& expression::has_or(e) == t.contains(Tok::Or)
    &&& expression::has_and(e) == t.contains(Tok::And)
}

proof fn lemma_joined_shape(t: Seq<Tok>, i: int, l: Expr, r: Expr, e: Expr)
    requires
        0 <= i < t.len(),
        shape_shown(t.take(i), l),
        shape_shown(t.skip(i + 1), r),
        t[i] == Tok::Or ==> e == Expr::Or(Box::new(l), Box::new(r)),
        t[i] == Tok::And ==> e == Expr::And(Box::new(l), Box::new(r)),
        t[i] == Tok::With ==> e == Expr::With(Box::new(l), Box::new(r)),
        t[i] == Tok::Or || t[i] == Tok::And || t[i] == Tok::With,
    ensures
        shape_shown(t, e),
{
    let a = t.take(i);
    let op = seq![t[i]];
    let b = t.skip(i + 1);
    assert(t == a + op + b);
    lemma_words_among_concat(a, op);
    lemma_words_among_concat(a + op, b);
    assert(op.drop_last() == Seq::<Tok>::empty());
    assert(words_among(Seq::<Tok>::empty()) == Seq::<Seq<char>>::empty());
    assert(op.last() == t[i]);
    assert(words_among(op) == Seq::<Seq<char>>::empty());
    assert(words_among(a) + words_among(op) == words_among(a));
    assert forall|x: Tok| t.contains(x) == (a.contains(x) || x == t[i] || b.contains(x)) by {
        if a.contains(x) {
            let k = choose|k: int| 0 <= k < a.len() && a[k] == x;
            assert(t[k] == x);
        }
        if b.contains(x) {
            let k = choose|k: int| 0 <= k < b.len() && b[k] == x;
            assert(t[i + 1 + k] == x);
        }
        if t.contains(x) {
            let k = choose|k: int| 0 <= k < t.len() && t[k] == x;
            if k < i {
                assert(a[k] == x);
            } else if k > i {
                assert(b[k - i - 1] == x);
            }
        }
    }
    assert(t.contains(Tok::Or) == (a.contains(Tok::Or) || t[i] == Tok::Or || b.contains(Tok::Or)));
    assert(t.contains(Tok::And) == (a.contains(Tok::And) || t[i] == Tok::And || b.contains(
        Tok::And,
    )));
}

proof fn lemma_last_top_is_there(t: Seq<Tok>, op: Tok, n: int)
    requires
        0 <= n <= t.len(),
    ensures
        -1 <= expression::last_top(t, op, n) < n || n == 0,
        expression::last_top(t, op, n) >= 0 ==> t[expression::last_top(t, op, n)] == op,
    decreases n,
{
    if n > 0 {
        lemma_last_top_is_there(t, op, n - 1);
    }
}

proof fn lemma_or_shape(t: Seq<Tok>)
    ensures
        expression::denotes_or(t) is Some ==> shape_shown(t, expression::denotes_or(t)->0),
    decreases t.len(), 3nat,
{
    let i = expression::last_top(t, Tok::Or, t.len() as int);
    if 0 <= i < t.len() {
        lemma_last_top_is_there(t, Tok::Or, t.len() as int);
        lemma_or_shape(t.take(i));
        lemma_and_shape(t.skip(i + 1));
        if expression::denotes_or(t) is Some {
            lemma_joined_shape(
                t,
                i,
                expression::denotes_or(t.take(i))->0,
                expression::denotes_and(t.skip(i + 1))->0,
                expression::denotes_or(t)->0,
            );
        }
    } else {
        lemma_and_shape(t);
    }
}

proof fn lemma_and_shape(t: Seq<Tok>)
    ensures
        expression::denotes_and(t) is Some ==> shape_shown(t, expression::denotes_and(t)->0),
    decreases t.len(), 2nat,
{
    let i = expression::last_top(t, Tok::And, t.len() as int);
    if 0 <= i < t.len() {
        lemma_last_top_is_there(t, Tok::And, t.len() as int);
        lemma_and_shape(t.take(i));
        lemma_with_shape(t.skip(i + 1));
        if expression::denotes_and(t) is Some {
            lemma_joined_shape(
                t,
                i,
                expression::denotes_and(t.take(i))->0,
                expression::denotes_with(t.skip(i + 1))->0,
                expression::denotes_and(t)->0,
            );
        }
    } else {
        lemma_with_shape(t);
    }
}

proof fn lemma_with_shape(t: Seq<Tok>)
    ensures
        expression::denotes_with(t) is Some ==> shape_shown(t, expression::denotes_with(t)->0),
    decreases t.len(), 1nat,
{
    let i = expression::last_top(t, Tok::With, t.len() as int);
    if 0 <= i < t.len() {
        lemma_last_top_is_there(t, Tok::With, t.len() as int);
        lemma_atom_shape(t.take(i));
        lemma_atom_shape(t.skip(i + 1));
        if expression::denotes_with(t) is Some {
            lemma_joined_shape(
                t,
                i,
                expression::denotes_atom(t.take(i))->0,
                expression::denotes_atom(t.skip(i + 1))->0,
                expression::denotes_with(t)->0,
            );
        }
    } else {
        lemma_atom_shape(t);
    }
}

proof fn lemma_atom_shape(t: Seq<Tok>)
    ensures
        expression::denotes_atom(t) is Some ==> shape_shown(t, expression::denotes_atom(t)->0),
    decreases t.len(), 0nat,
{
    if t.len() == 1 {
        assert(t.drop_last() == Seq::<Tok>::empty());
        assert(t.last() == t[0]);
        if let Tok::Word(w) = t[0] {
            assert(words_among(Seq::<Tok>::empty()) == Seq::<Seq<char>>::empty());
            assert(words_among(t) =~= seq![w]);
            assert(!t.contains(Tok::Or) && !t.contains(Tok::And));
        }
    } else if t.len() >= 3 && t[0] == Tok::Open && t.last() == Tok::Close {
        let inner = t.subrange(1, t.len() - 1);
        lemma_or_shape(inner);
        let open = seq![Tok::Open];
        let close = seq![Tok::Close];
        assert(t == open + inner + close);
        lemma_words_among_concat(open, inner);
        lemma_words_among_concat(open + inner, close);
        assert(open.drop_last() == Seq::<Tok>::empty());
        assert(close.drop_last() == Seq::<Tok>::empty());
        assert(words_among(Seq::<Tok>::empty()) == Seq::<Seq<char>>::empty());
        assert(open.last() == Tok::Open && close.last() == Tok::Close);
        assert(words_among(open) == Seq::<Seq<char>>::empty());
        assert(words_among(close) == Seq::<Seq<char>>::empty());
        assert(words_among(t) =~= words_among(inner));
        assert forall|x: Tok| x == Tok::Or || x == Tok::And implies t.contains(x) == inner.contains(
            x,
        ) by {
            if inner.contains(x) {
                let k = choose|k: int| 0 <= k < inner.len() && inner[k] == x;
                assert(t[k + 1] == x);
            }
            if t.contains(x) {
                let k = choose|k: int| 0 <= k < t.len() && t[k] == x;
                assert(inner[k - 1] == x);
            }
        }
        assert(t.contains(Tok::Or) == inner.contains(Tok::Or));
        assert(t.contains(Tok::And) == inner.contains(Tok::And));
    }
}

/// The keys of an expression are the words of its text, all of them and in their
/// order, and its operators are those of its text.
pub proof fn law_keys_are_the_words(s: Seq<char>)
    requires
        expression::parsed(s) is Some,
    ensures
        expression::keys_of(expression::parsed(s)->0) == words_among(expression::tokens_of(s)),
        expression::has_or(expression::parsed(s)->0) == expression::tokens_of(s).contains(Tok::Or),
        expression::has_and(expression::parsed(s)->0) == expression::tokens_of(s).contains(Tok::And),
{
    lemma_or_shape(expression::tokens_of(s));
}

/// The keys of an expression are those that it takes to meet it: all of them meet
/// it, and licenses that are not among them make no difference.
pub proof fn law_keys_decide(e: Expr, granted: Set<Seq<char>>)
    ensures
        meets(e, expression::key_set(e)),
        meets(e, granted) == meets(e, granted.intersect(expression::key_set(e))),
{
    lemma_keys_meet(e, expression::key_set(e));
    lemma_keys_decide(e, granted, granted.intersect(expression::key_set(e)));
}

proof fn lemma_key_of_license(key: Seq<char>)
    ensures
        expression::key_set(Expr::License(key)).contains(text::lower(key)),
{
    let keys = expression::keys_of(Expr::License(key)).map_values(
        |k: Seq<char>| text::lower(k),
    );
    assert(keys[0] == text::lower(key));
    assert(keys.contains(text::lower(key)));
}

proof fn lemma_keys_meet(e: Expr, granted: Set<Seq<char>>)
    requires
        expression::key_set(e).subset_of(granted),
    ensures
        meets(e, granted),
    decreases e,
{
    match e {
        Expr::License(key) => {
            lemma_key_of_license(key);
        },
        Expr::And(l, r) => {
            lemma_key_set_concat(*l, *r, e);
            lemma_keys_meet(*l, granted);
            lemma_keys_meet(*r, granted);
        },
        Expr::Or(l, r) => {
            lemma_key_set_concat(*l, *r, e);
            lemma_keys_meet(*l, granted);
            lemma_keys_meet(*r, granted);
        },
        Expr::With(l, r) => {
            lemma_key_set_concat(*l, *r, e);
            lemma_keys_meet(*l, granted);
            lemma_keys_meet(*r, granted);
        },
    }
}

/// Two sets hold the same ones of some keys.
spec fn agree_on(keys: Set<Seq<char>>, a: Set<Seq<char>>, b: Set<Seq<char>>) -> bool {
    forall|key: Seq<char>| keys.contains(key) ==> #[trigger] a.contains(key) == b.contains(key)
}

proof fn lemma_keys_decide(e: Expr, a: Set<Seq<char>>, b: Set<Seq<char>>)
    requires
        agree_on(expression::key_set(e), a, b),
    ensures
        meets(e, a) == meets(e, b),
    decreases e,
{
    match e {
        Expr::License(key) => {
            lemma_key_of_license(key);
        },
        Expr::And(l, r) => {
            lemma_key_set_concat(*l, *r, e);
            lemma_keys_decide(*l, a, b);
            lemma_keys_decide(*r, a, b);
        },
        Expr::Or(l, r) => {
            lemma_key_set_concat(*l, *r, e);
            lemma_keys_decide(*l, a, b);
            lemma_keys_decide(*r, a, b);
        },
        Expr::With(l, r) => {
            lemma_key_set_concat(*l, *r, e);
            lemma_keys_decide(*l, a, b);
            lemma_keys_decide(*r, a, b);
        },
    }
}

/// Expressions combine strictly only where each that is not blank can be read, and
/// then name what each of them names.
pub proof fn law_strict_combination(expressions: Seq<Seq<char>>, key: Seq<char>)
    ensures
        (exists|i: int|
            0 <= i < expressions.len() && text::trim_of(#[trigger] expressions[i]).len() > 0
                && expression::parsed(expressions[i]) is None) ==> spdx::combined_strict(
            expressions,
        ) is None,
        (forall|i: int|
            0 <= i < expressions.len() && text::trim_of(#[trigger] expressions[i]).len() > 0
                ==> expression::parsed(expressions[i]) is Some) ==> {
            let named = exists|i: int|
                0 <= i < expressions.len() && expression::expression_keys(
                    #[trigger] expressions[i],
                ).contains(key);
            &&& spdx::combined_strict(expressions) is Some == exists|i: int|
                0 <= i < expressions.len() && text::trim_of(#[trigger] expressions[i]).len() > 0
            &&& spdx::combined_strict(expressions) is Some ==> expression::expression_keys(
                spdx::combined_strict(expressions)->0,
            ).contains(key) == named
            &&& spdx::combined_strict(expressions) is None ==> !named
        },
{
    assert forall|i: int| 0 <= i < expressions.len() implies expression::parsed(
        text::trim_of(#[trigger] expressions[i]),
    ) == expression::parsed(expressions[i]) && (text::trim_of(expressions[i]).len() == 0
        ==> expression::parsed(expressions[i]) is None) by {
        law_white_space_around_does_not_matter(expressions[i]);
    }
    law_combined_where_there_is_one(expressions);
    if spdx::all_parse(expressions) && spdx::combined(expressions) is Some {
        law_combined_names_every_license(expressions, key);
    }
}

/// A word of letters, digits and the signs that keys have is an expression that
/// names itself, unless it is an operator.
pub proof fn law_key_reads_as_itself(word: Seq<char>)
    requires
        word.len() > 0,
        forall|i: int|
            0 <= i < word.len() ==> {
                let c = #[trigger] word[i];
                'a' <= c <= 'z' || 'A' <= c <= 'Z' || '0' <= c <= '9' || c == '.' || c == '-' || c
                    == '_' || c == '+' || c == ':'
            },
        text::lower(word) != "and"@,
        text::lower(word) != "or"@,
        text::lower(word) != "with"@,
    ensures
        expression::parsed(word) == Some(Expr::License(word)),
{
    let readable = |c: char| expression::is_key_char(c);
    assert forall|i: int| 0 <= i < word.len() implies readable(#[trigger] word[i]) by {}
    law_rendered_reads_back(Expr::License(word));
    assert(spdx::rendered(Expr::License(word)) == word);
}

/// The keys of what can be read hold no other signs, and none is an operator.
pub proof fn law_keys_hold_key_signs(s: Seq<char>, k: int, i: int)
    requires
        expression::parsed(s) is Some,
        0 <= k < expression::keys_of(expression::parsed(s)->0).len(),
        0 <= i < expression::keys_of(expression::parsed(s)->0)[k].len(),
    ensures
        ({
            let key = expression::keys_of(expression::parsed(s)->0)[k];
            let c = key[i];
            &&& 'a' <= c <= 'z' || 'A' <= c <= 'Z' || '0' <= c <= '9' || c == '.' || c == '-' || c
                == '_' || c == '+' || c == ':'
            &&& text::lower(key) != "and"@
            &&& text::lower(key) != "or"@
            &&& text::lower(key) != "with"@
        }),
{
    law_parsed_is_proper(s);
    lemma_keys_are_proper(expression::parsed(s)->0, k);
    let readable = |c: char| expression::is_key_char(c);
    let key = expression::keys_of(expression::parsed(s)->0)[k];
    assert(key.all(readable));
    assert(readable(key[i]));
}

proof fn lemma_keys_are_proper(e: Expr, k: int)
    requires
        proper(e),
        0 <= k < expression::keys_of(e).len(),
    ensures
        proper_key(expression::keys_of(e)[k]),
    decreases e,
{
    match e {
        Expr::License(_) => {},
        Expr::And(l, r) | Expr::Or(l, r) | Expr::With(l, r) => {
            let n = expression::keys_of(*l).len();
            if k < n {
                lemma_keys_are_proper(*l, k);
            } else {
                lemma_keys_are_proper(*r, k - n);
            }
        },
    }
}

/// An empty text, or one that came before, does not change which of several
/// expressions is the primary one.
pub proof fn law_primary_skips_empty_and_repeated(
    first: Seq<Seq<char>>,
    s: Seq<char>,
    rest: Seq<Seq<char>>,
)
    requires
        s.len() == 0 || first.contains(s),
    ensures
        spdx::primary(first.push(s) + rest) == spdx::primary(first + rest),
{
    lemma_unique_skips(first, s, rest);
}

proof fn lemma_unique_skips(first: Seq<Seq<char>>, s: Seq<char>, rest: Seq<Seq<char>>)
    requires
        s.len() == 0 || first.contains(s),
    ensures
        spdx::unique_of(first.push(s) + rest) == spdx::unique_of(first + rest),
    decreases rest.len(),
{
    if rest.len() == 0 {
        assert(first.push(s) + rest == first.push(s));
        assert(first + rest == first);
        assert(first.push(s).drop_last() == first);
        lemma_unique_of(first);
    } else {
        lemma_unique_skips(first, s, rest.drop_last());
        assert((first.push(s) + rest).drop_last() == first.push(s) + rest.drop_last());
        assert((first + rest).drop_last() == first + rest.drop_last());
    }
}

} // verus!
