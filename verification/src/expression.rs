//! License expressions: their grammar, their keys and their shape.
//!
//! An expression is built from license keys with `OR`, `AND` and `WITH`, in
//! rising order of precedence, and with parentheses. The operators are
//! recognised in any case; `OR` and `AND` group to the left.
use vstd::prelude::*;

use crate::text;

verus! {

/// A parsed license expression.
#[derive(Debug)]
pub enum LicenseExpression {
    License(String),
    And { left: Box<LicenseExpression>, right: Box<LicenseExpression> },
    Or { left: Box<LicenseExpression>, right: Box<LicenseExpression> },
    With { left: Box<LicenseExpression>, right: Box<LicenseExpression> },
}

/// What a [`LicenseExpression`] stands for.
pub enum Expr {
    License(Seq<char>),
    And(Box<Expr>, Box<Expr>),
    Or(Box<Expr>, Box<Expr>),
    With(Box<Expr>, Box<Expr>),
}

impl LicenseExpression {
    pub open spec fn expr(self) -> Expr
        decreases self,
    {
        match self {
            LicenseExpression::License(key) => Expr::License(key@),
            LicenseExpression::And { left, right } => Expr::And(
                Box::new(left.expr()),
                Box::new(right.expr()),
            ),
            LicenseExpression::Or { left, right } => Expr::Or(
                Box::new(left.expr()),
                Box::new(right.expr()),
            ),
            LicenseExpression::With { left, right } => Expr::With(
                Box::new(left.expr()),
                Box::new(right.expr()),
            ),
        }
    }
}

impl View for LicenseExpression {
    type V = Expr;

    open spec fn view(&self) -> Expr {
        self.expr()
    }
}

/// The text is no license expression.
#[derive(Clone, Copy, Debug, PartialEq, Eq, Structural)]
pub struct ExpressionError;

/// A token of an expression.
#[derive(Debug)]
pub enum Token {
    Open,
    Close,
    And,
    Or,
    With,
    Word(String),
}

/// What a [`Token`] stands for.
pub enum Tok {
    Open,
    Close,
    And,
    Or,
    With,
    Word(Seq<char>),
}

impl View for Token {
    type V = Tok;

    open spec fn view(&self) -> Tok {
        match *self {
            Token::Open => Tok::Open,
            Token::Close => Tok::Close,
            Token::And => Tok::And,
            Token::Or => Tok::Or,
            Token::With => Tok::With,
            Token::Word(w) => Tok::Word(w@),
        }
    }
}

/// The views of a sequence of tokens.
pub open spec fn toks(tokens: Seq<Token>) -> Seq<Tok> {
    tokens.map_values(|t: Token| t@)
}

pub open spec fn is_paren(c: char) -> bool {
    c == '(' || c == ')'
}

/// A character that may stand in a license key.
pub open spec fn is_key_char(c: char) -> bool {
    text::is_ascii_alnum(c) || c == '.' || c == '-' || c == '_' || c == '+' || c == ':'
}

pub open spec fn ends_piece(c: char) -> bool {
    text::is_white_space(c) || is_paren(c)
}

/// The pieces of an expression: each parenthesis, and each maximal run of
/// characters that are neither white space nor parentheses.
pub open spec fn pieces_of(s: Seq<char>) -> Seq<Seq<char>>
    decreases s.len(),
{
    if s.len() == 0 {
        seq![]
    } else {
        let before = pieces_of(s.drop_last());
        if text::is_white_space(s.last()) {
            before
        } else if is_paren(s.last()) || s.len() == 1 || ends_piece(s[s.len() - 2]) {
            before.push(seq![s.last()])
        } else {
            before.drop_last().push(before.last().push(s.last()))
        }
    }
}

/// The token that a piece stands for.
pub open spec fn classify(piece: Seq<char>) -> Tok {
    if piece == seq!['('] {
        Tok::Open
    } else if piece == seq![')'] {
        Tok::Close
    } else if text::lower(piece) == "and"@ {
        Tok::And
    } else if text::lower(piece) == "or"@ {
        Tok::Or
    } else if text::lower(piece) == "with"@ {
        Tok::With
    } else {
        Tok::Word(piece)
    }
}

pub open spec fn tokens_of(s: Seq<char>) -> Seq<Tok> {
    pieces_of(s).map_values(|piece: Seq<char>| classify(piece))
}

/// The number of parentheses that are open before index `i`.
pub open spec fn depth_at(t: Seq<Tok>, i: int) -> int
    decreases i,
{
    if i <= 0 {
        0
    } else if t[i - 1] == Tok::Open {
        depth_at(t, i - 1) + 1
    } else if t[i - 1] == Tok::Close {
        depth_at(t, i - 1) - 1
    } else {
        depth_at(t, i - 1)
    }
}

/// The last index below `n` at which `op` stands outside all parentheses, or -1.
pub open spec fn last_top(t: Seq<Tok>, op: Tok, n: int) -> int
    decreases n,
{
    if n <= 0 {
        -1
    } else if t[n - 1] == op && depth_at(t, n - 1) == 0 {
        n - 1
    } else {
        last_top(t, op, n - 1)
    }
}

/// The expression that a sequence of tokens denotes. At each level the last
/// operator of that level outside all parentheses parts the sequence; a
/// sequence without one belongs to the next level.
pub open spec fn denotes_or(t: Seq<Tok>) -> Option<Expr>
    decreases t.len(), 3nat,
{
    let i = last_top(t, Tok::Or, t.len() as int);
    if 0 <= i < t.len() {
        match (denotes_or(t.take(i)), denotes_and(t.skip(i + 1))) {
            (Some(l), Some(r)) => Some(Expr::Or(Box::new(l), Box::new(r))),
            _ => None,
        }
    } else {
        denotes_and(t)
    }
}

pub open spec fn denotes_and(t: Seq<Tok>) -> Option<Expr>
    decreases t.len(), 2nat,
{
    let i = last_top(t, Tok::And, t.len() as int);
    if 0 <= i < t.len() {
        match (denotes_and(t.take(i)), denotes_with(t.skip(i + 1))) {
            (Some(l), Some(r)) => Some(Expr::And(Box::new(l), Box::new(r))),
            _ => None,
        }
    } else {
        denotes_with(t)
    }
}

pub open spec fn denotes_with(t: Seq<Tok>) -> Option<Expr>
    decreases t.len(), 1nat,
{
    let i = last_top(t, Tok::With, t.len() as int);
    if 0 <= i < t.len() {
        match (denotes_atom(t.take(i)), denotes_atom(t.skip(i + 1))) {
            (Some(l), Some(r)) => Some(Expr::With(Box::new(l), Box::new(r))),
            _ => None,
        }
    } else {
        denotes_atom(t)
    }
}

pub open spec fn denotes_atom(t: Seq<Tok>) -> Option<Expr>
    decreases t.len(), 0nat,
{
    if t.len() == 1 {
        match t[0] {
            Tok::Word(w) => if w.all(|c: char| is_key_char(c)) {
                Some(Expr::License(w))
            } else {
                None
            },
            _ => None,
        }
    } else if t.len() >= 3 && t[0] == Tok::Open && t.last() == Tok::Close {
        denotes_or(t.subrange(1, t.len() - 1))
    } else {
        None
    }
}

/// The expression that a text stands for, if any.
pub open spec fn parsed(s: Seq<char>) -> Option<Expr> {
    denotes_or(tokens_of(s))
}

/// The keys of an expression, from left to right.
pub open spec fn keys_of(e: Expr) -> Seq<Seq<char>>
    decreases e,
{
    match e {
        Expr::License(key) => seq![key],
        Expr::And(l, r) => keys_of(*l) + keys_of(*r),
        Expr::Or(l, r) => keys_of(*l) + keys_of(*r),
        Expr::With(l, r) => keys_of(*l) + keys_of(*r),
    }
}

/// The keys of an expression in lower case.
pub open spec fn key_set(e: Expr) -> Set<Seq<char>> {
    keys_of(e).map_values(|key: Seq<char>| text::lower(key)).to_set()
}

/// The lower-case keys of a text; none where it is no expression.
pub open spec fn expression_keys(s: Seq<char>) -> Set<Seq<char>> {
    match parsed(s) {
        Some(e) => key_set(e),
        None => Set::empty(),
    }
}

/// `OR` stands in the expression.
pub open spec fn has_or(e: Expr) -> bool
    decreases e,
{
    match e {
        Expr::License(_) => false,
        Expr::Or(_, _) => true,
        Expr::And(l, r) => has_or(*l) || has_or(*r),
        Expr::With(l, r) => has_or(*l) || has_or(*r),
    }
}

/// `AND` stands in the expression.
pub open spec fn has_and(e: Expr) -> bool
    decreases e,
{
    match e {
        Expr::License(_) => false,
        Expr::And(_, _) => true,
        Expr::Or(l, r) => has_and(*l) || has_and(*r),
        Expr::With(l, r) => has_and(*l) || has_and(*r),
    }
}

/// The pieces of an expression.
fn split_pieces(s: &[char]) -> (rows: Vec<Vec<char>>)
    ensures
        text::char_rows(rows@) == pieces_of(s@),
{
    let mut done: Vec<Vec<char>> = Vec::new();
    let mut current: Vec<char> = Vec::new();
    let mut i: usize = 0;
    assert(s@.take(0) == Seq::<char>::empty());
    assert(text::char_rows(done@) == Seq::<Seq<char>>::empty());
    while i < s.len()
        invariant
            i <= s@.len(),
            (current@.len() == 0) == (i == 0 || ends_piece(s@[i - 1])),
            current@.len() == 0 ==> pieces_of(s@.take(i as int)) == text::char_rows(done@),
            current@.len() > 0 ==> pieces_of(s@.take(i as int)) == text::char_rows(done@).push(
                current@,
            ),
        decreases s@.len() - i,
    {
        let c = s[i];
        let ghost before = current@;
        let ghost rows_before = text::char_rows(done@);
        assert(s@.take(i + 1).drop_last() == s@.take(i as int));
        if text::white_space(c) || c == '(' || c == ')' {
            if current.len() > 0 {
                done.push(current);
                assert(text::char_rows(done@) == rows_before.push(before));
                current = Vec::new();
            }
            if c == '(' || c == ')' {
                let ghost rows_mid = text::char_rows(done@);
                let mut paren: Vec<char> = Vec::new();
                paren.push(c);
                assert(paren@ == seq![c]);
                done.push(paren);
                assert(text::char_rows(done@) == rows_mid.push(seq![c]));
            }
        } else {
            current.push(c);
            proof {
                if before.len() == 0 {
                    assert(before.push(c) == seq![c]);
                } else {
                    assert(rows_before.push(before).drop_last() == rows_before);
                }
                assert(pieces_of(s@.take(i + 1)) == rows_before.push(current@));
            }
        }
        i = i + 1;
    }
    assert(s@.take(i as int) == s@);
    if current.len() > 0 {
        let ghost rows_before = text::char_rows(done@);
        let ghost last = current@;
        done.push(current);
        assert(text::char_rows(done@) == rows_before.push(last));
    }
    done
}

/// The token that a piece stands for.
fn token_of(piece: &Vec<char>) -> (token: Token)
    ensures
        token@ == classify(piece@),
{
    if piece.len() == 1 && piece[0] == '(' {
        assert(piece@ == seq!['(']);
        return Token::Open;
    }
    if piece.len() == 1 && piece[0] == ')' {
        assert(piece@ == seq![')']);
        return Token::Close;
    }
    assert(piece@ != seq!['('] && piece@ != seq![')']) by {
        if piece@ == seq!['('] || piece@ == seq![')'] {
            assert(piece@.len() == 1);
        }
    }
    let lowered = text::to_text(&text::lower_chars(piece));
    if text::same_str(lowered.as_str(), "and") {
        Token::And
    } else if text::same_str(lowered.as_str(), "or") {
        Token::Or
    } else if text::same_str(lowered.as_str(), "with") {
        Token::With
    } else {
        Token::Word(text::to_text(piece))
    }
}

/// The tokens of an expression.
fn tokenize(s: &str) -> (tokens: Vec<Token>)
    ensures
        toks(tokens@) == tokens_of(s@),
{
    let chars = text::to_chars(s);
    let pieces = split_pieces(&chars);
    let mut tokens: Vec<Token> = Vec::new();
    let mut i: usize = 0;
    while i < pieces.len()
        invariant
            i <= pieces@.len(),
            tokens@.len() == i,
            forall|j: int| 0 <= j < i ==> (#[trigger] tokens@[j])@ == classify(pieces@[j]@),
        decreases pieces@.len() - i,
    {
        tokens.push(token_of(&pieces[i]));
        i = i + 1;
    }
    proof {
        assert(pieces_of(s@).len() == pieces@.len());
        assert forall|j: int| 0 <= j < pieces@.len() implies #[trigger] toks(tokens@)[j]
            == tokens_of(s@)[j] by {
            assert(text::char_rows(pieces@)[j] == pieces@[j]@);
        }
        assert(toks(tokens@) == tokens_of(s@));
    }
    tokens
}

/// Whether the token is the given operator.
fn is_operator(token: &Token, op: &Token) -> (r: bool)
    requires
        op@ == Tok::And || op@ == Tok::Or || op@ == Tok::With,
    ensures
        r == (token@ == op@),
{
    match (token, op) {
        (Token::And, Token::And) => true,
        (Token::Or, Token::Or) => true,
        (Token::With, Token::With) => true,
        _ => false,
    }
}

/// The last place of the operator outside all parentheses.
fn find_last_top(t: &[Token], op: &Token) -> (r: Option<usize>)
    requires
        op@ == Tok::And || op@ == Tok::Or || op@ == Tok::With,
    ensures
        ({
            let i = last_top(toks(t@), op@, t@.len() as int);
            &&& -1 <= i < t@.len()
            &&& r is Some == (i >= 0)
            &&& r is Some ==> r->0 == i
        }),
{
    let ghost ts = toks(t@);
    let mut found: Option<usize> = None;
    let mut depth: i128 = 0;
    let mut i: usize = 0;
    while i < t.len()
        invariant
            ts == toks(t@),
            op@ == Tok::And || op@ == Tok::Or || op@ == Tok::With,
            i <= t@.len(),
            depth == depth_at(ts, i as int),
            -i <= depth <= i,
            found is Some == (last_top(ts, op@, i as int) >= 0),
            found is Some ==> found->0 == last_top(ts, op@, i as int),
            found is Some ==> found->0 < i,
            found is None ==> last_top(ts, op@, i as int) == -1,
        decreases t@.len() - i,
    {
        assert(ts[i as int] == t@[i as int]@);
        if depth == 0 && is_operator(&t[i], op) {
            found = Some(i);
        }
        match &t[i] {
            Token::Open => {
                depth = depth + 1;
            },
            Token::Close => {
                depth = depth - 1;
            },
            _ => {},
        }
        i = i + 1;
    }
    found
}

/// Parts of a token slice have the parts of its view.
proof fn lemma_toks_parts(t: Seq<Token>, from: int, to: int)
    requires
        0 <= from <= to <= t.len(),
    ensures
        toks(t.subrange(from, to)) == toks(t).subrange(from, to),
{
    assert(toks(t.subrange(from, to)) == toks(t).subrange(from, to));
}

fn parse_or(t: &[Token]) -> (r: Option<LicenseExpression>)
    ensures
        r is Some == denotes_or(toks(t@)) is Some,
        r is Some ==> r->0@ == denotes_or(toks(t@))->0,
    decreases t@.len(), 3nat,
{
    let n: usize = t.len();
    let op = Token::Or;
    match find_last_top(t, &op) {
        Some(i) => {
            proof {
                lemma_toks_parts(t@, 0, i as int);
                lemma_toks_parts(t@, i + 1, t@.len() as int);
                assert(toks(t@).take(i as int) == toks(t@).subrange(0, i as int));
                assert(toks(t@).skip(i + 1) == toks(t@).subrange(i + 1, t@.len() as int));
            }
            let left = parse_or(&t[0..i]);
            let right = parse_and(&t[i + 1..n]);
            match (left, right) {
                (Some(l), Some(r)) => Some(
                    LicenseExpression::Or { left: Box::new(l), right: Box::new(r) },
                ),
                _ => None,
            }
        },
        None => parse_and(t),
    }
}

fn parse_and(t: &[Token]) -> (r: Option<LicenseExpression>)
    ensures
        r is Some == denotes_and(toks(t@)) is Some,
        r is Some ==> r->0@ == denotes_and(toks(t@))->0,
    decreases t@.len(), 2nat,
{
    let n: usize = t.len();
    let op = Token::And;
    match find_last_top(t, &op) {
        Some(i) => {
            proof {
                lemma_toks_parts(t@, 0, i as int);
                lemma_toks_parts(t@, i + 1, t@.len() as int);
                assert(toks(t@).take(i as int) == toks(t@).subrange(0, i as int));
                assert(toks(t@).skip(i + 1) == toks(t@).subrange(i + 1, t@.len() as int));
            }
            let left = parse_and(&t[0..i]);
            let right = parse_with(&t[i + 1..n]);
            match (left, right) {
                (Some(l), Some(r)) => Some(
                    LicenseExpression::And { left: Box::new(l), right: Box::new(r) },
                ),
                _ => None,
            }
        },
        None => parse_with(t),
    }
}

fn parse_with(t: &[Token]) -> (r: Option<LicenseExpression>)
    ensures
        r is Some == denotes_with(toks(t@)) is Some,
        r is Some ==> r->0@ == denotes_with(toks(t@))->0,
    decreases t@.len(), 1nat,
{
    let n: usize = t.len();
    let op = Token::With;
    match find_last_top(t, &op) {
        Some(i) => {
            proof {
                lemma_toks_parts(t@, 0, i as int);
                lemma_toks_parts(t@, i + 1, t@.len() as int);
                assert(toks(t@).take(i as int) == toks(t@).subrange(0, i as int));
                assert(toks(t@).skip(i + 1) == toks(t@).subrange(i + 1, t@.len() as int));
            }
            let left = parse_atom(&t[0..i]);
            let right = parse_atom(&t[i + 1..n]);
            match (left, right) {
                (Some(l), Some(r)) => Some(
                    LicenseExpression::With { left: Box::new(l), right: Box::new(r) },
                ),
                _ => None,
            }
        },
        None => parse_atom(t),
    }
}

/// Whether all characters of the word may stand in a license key.
fn is_key(word: &str) -> (r: bool)
    ensures
        r == word@.all(|c: char| is_key_char(c)),
{
    let chars = text::to_chars(word);
    let mut i: usize = 0;
    while i < chars.len()
        invariant
            chars@ == word@,
            i <= chars@.len(),
            forall|j: int| 0 <= j < i ==> is_key_char(chars@[j]),
        decreases chars@.len() - i,
    {
        let c = chars[i];
        if !(text::ascii_alnum(c) || c == '.' || c == '-' || c == '_' || c == '+' || c == ':') {
            assert(!(|c: char| is_key_char(c))(word@[i as int]));
            return false;
        }
        i = i + 1;
    }
    true
}

fn parse_atom(t: &[Token]) -> (r: Option<LicenseExpression>)
    ensures
        r is Some == denotes_atom(toks(t@)) is Some,
        r is Some ==> r->0@ == denotes_atom(toks(t@))->0,
    decreases t@.len(), 0nat,
{
    let n: usize = t.len();
    if n == 1 {
        assert(toks(t@)[0] == t@[0]@);
        match &t[0] {
            Token::Word(word) => if is_key(word.as_str()) {
                Some(LicenseExpression::License(word.clone()))
            } else {
                None
            },
            _ => None,
        }
    } else if n >= 3 {
        assert(toks(t@)[0] == t@[0]@);
        assert(toks(t@).last() == t@[n - 1]@);
        let opens = match &t[0] {
            Token::Open => true,
            _ => false,
        };
        let closes = match &t[n - 1] {
            Token::Close => true,
            _ => false,
        };
        if opens && closes {
            proof {
                lemma_toks_parts(t@, 1, n - 1);
            }
            parse_or(&t[1..n - 1])
        } else {
            None
        }
    } else {
        None
    }
}

/// Parses a license expression.
pub fn parse_expression(s: &str) -> (r: Result<LicenseExpression, ExpressionError>)
    ensures
        r is Ok == parsed(s@) is Some,
        r is Ok ==> r->Ok_0@ == parsed(s@)->0,
{
    let tokens = tokenize(s);
    match parse_or(&tokens) {
        Some(e) => Ok(e),
        None => Err(ExpressionError),
    }
}

/// Whether `OR` stands in the expression.
pub fn expression_contains_or(expression: &LicenseExpression) -> (r: bool)
    ensures
        r == has_or(expression@),
    decreases expression,
{
    match expression {
        LicenseExpression::Or { .. } => true,
        LicenseExpression::And { left, right } => expression_contains_or(left)
            || expression_contains_or(right),
        LicenseExpression::With { left, right } => expression_contains_or(left)
            || expression_contains_or(right),
        LicenseExpression::License(_) => false,
    }
}

/// Whether `AND` stands in the expression.
pub fn expression_contains_and(expression: &LicenseExpression) -> (r: bool)
    ensures
        r == has_and(expression@),
    decreases expression,
{
    match expression {
        LicenseExpression::And { .. } => true,
        LicenseExpression::Or { left, right } => expression_contains_and(left)
            || expression_contains_and(right),
        LicenseExpression::With { left, right } => expression_contains_and(left)
            || expression_contains_and(right),
        LicenseExpression::License(_) => false,
    }
}

impl LicenseExpression {
    /// The keys of the expression, from left to right.
    pub fn license_keys(&self) -> (keys: Vec<String>)
        ensures
            text::texts(keys@) == keys_of(self@),
        decreases self,
    {
        match self {
            LicenseExpression::License(key) => {
                let mut keys: Vec<String> = Vec::new();
                keys.push(key.clone());
                assert(text::texts(keys@) == keys_of(self@));
                keys
            },
            LicenseExpression::And { left, right } => joined(
                left.license_keys(),
                right.license_keys(),
            ),
            LicenseExpression::Or { left, right } => joined(
                left.license_keys(),
                right.license_keys(),
            ),
            LicenseExpression::With { left, right } => joined(
                left.license_keys(),
                right.license_keys(),
            ),
        }
    }
}

/// Two lists in turn.
fn joined(first: Vec<String>, second: Vec<String>) -> (r: Vec<String>)
    ensures
        text::texts(r@) == text::texts(first@) + text::texts(second@),
{
    let mut r = first;
    let mut rest = second;
    r.append(&mut rest);
    assert(text::texts(r@) == text::texts(first@) + text::texts(second@));
    r
}

/// Whether the key is in the list.
pub fn has_key(keys: &Vec<String>, key: &String) -> (r: bool)
    ensures
        r == text::texts(keys@).to_set().contains(key@),
{
    let mut i: usize = 0;
    while i < keys.len()
        invariant
            i <= keys@.len(),
            forall|j: int| 0 <= j < i ==> keys@[j]@ != key@,
        decreases keys@.len() - i,
    {
        if keys[i] == *key {
            assert(text::texts(keys@)[i as int] == key@);
            assert(text::texts(keys@).contains(key@));
            return true;
        }
        i = i + 1;
    }
    proof {
        if text::texts(keys@).contains(key@) {
            let j = choose|j: int| 0 <= j < keys@.len() && text::texts(keys@)[j] == key@;
            assert(keys@[j]@ == key@);
        }
    }
    false
}

/// Adding an element to a sequence adds it to the set of its elements.
pub proof fn lemma_to_set_push<A>(s: Seq<A>, x: A)
    ensures
        s.push(x).to_set() == s.to_set().insert(x),
{
    assert forall|y: A| s.push(x).to_set().contains(y) == s.to_set().insert(x).contains(y) by {
        if s.contains(y) {
            let i = choose|i: int| 0 <= i < s.len() && s[i] == y;
            assert(s.push(x)[i] == y);
        }
        assert(s.push(x)[s.len() as int] == x);
        if s.push(x).contains(y) {
            let i = choose|i: int| 0 <= i < s.push(x).len() && s.push(x)[i] == y;
            if i < s.len() {
                assert(s[i] == y);
            }
        }
    }
    assert(s.push(x).to_set() == s.to_set().insert(x));
}

/// Adds the key to the list, unless it is there.
pub fn insert_key(keys: &mut Vec<String>, key: String)
    requires
        text::texts(old(keys)@).no_duplicates(),
    ensures
        text::texts(final(keys)@).no_duplicates(),
        text::texts(final(keys)@).to_set() == text::texts(old(keys)@).to_set().insert(key@),
{
    let ghost before = text::texts(keys@);
    if has_key(keys, &key) {
        assert(before.to_set().insert(key@) == before.to_set());
    } else {
        let ghost added = key@;
        keys.push(key);
        proof {
            assert(text::texts(keys@) == before.push(added));
            lemma_to_set_push(before, added);
            assert(!before.contains(added));
            assert forall|i: int, j: int|
                0 <= i < before.len() + 1 && 0 <= j < before.len() + 1 && i
                    != j implies before.push(added)[i] != before.push(added)[j] by {
                if i < before.len() {
                    assert(before.contains(before[i]));
                }
                if j < before.len() {
                    assert(before.contains(before[j]));
                }
            }
        }
    }
}

/// Adds to the list each key of another.
pub fn insert_keys(keys: &mut Vec<String>, more: &Vec<String>)
    requires
        text::texts(old(keys)@).no_duplicates(),
    ensures
        text::texts(final(keys)@).no_duplicates(),
        text::texts(final(keys)@).to_set() == text::texts(old(keys)@).to_set().union(
            text::texts(more@).to_set(),
        ),
{
    let ghost start = text::texts(keys@).to_set();
    let mut i: usize = 0;
    assert(text::texts(more@).take(0).to_set() == Set::<Seq<char>>::empty());
    assert(start.union(Set::empty()) == start);
    while i < more.len()
        invariant
            i <= more@.len(),
            text::texts(keys@).no_duplicates(),
            text::texts(keys@).to_set() == start.union(
                text::texts(more@).take(i as int).to_set(),
            ),
        decreases more@.len() - i,
    {
        insert_key(keys, more[i].clone());
        proof {
            let m = text::texts(more@);
            assert(m.take(i + 1) == m.take(i as int).push(m[i as int]));
            lemma_to_set_push(m.take(i as int), m[i as int]);
            assert(start.union(m.take(i + 1).to_set()) == start.union(
                m.take(i as int).to_set(),
            ).insert(m[i as int]));
        }
        i = i + 1;
    }
    assert(text::texts(more@).take(i as int) == text::texts(more@));
}

/// Whether each key of `wanted` is in the list.
pub fn has_all_keys(keys: &Vec<String>, wanted: &Vec<String>) -> (r: bool)
    ensures
        r == text::texts(wanted@).to_set().subset_of(text::texts(keys@).to_set()),
{
    let ghost held = text::texts(keys@).to_set();
    let ghost asked = text::texts(wanted@);
    let mut i: usize = 0;
    while i < wanted.len()
        invariant
            held == text::texts(keys@).to_set(),
            asked == text::texts(wanted@),
            i <= wanted@.len(),
            forall|j: int| 0 <= j < i ==> held.contains(#[trigger] asked[j]),
        decreases wanted@.len() - i,
    {
        assert(asked[i as int] == wanted@[i as int]@);
        if !has_key(keys, &wanted[i]) {
            assert(asked.to_set().contains(asked[i as int]));
            return false;
        }
        i = i + 1;
    }
    assert forall|key: Seq<char>| asked.to_set().contains(key) implies held.contains(key) by {
        let j = choose|j: int| 0 <= j < asked.len() && asked[j] == key;
        assert(held.contains(asked[j]));
    }
    true
}

/// The lower-case keys of the expression, each once.
pub fn lower_keys(expression: &LicenseExpression) -> (keys: Vec<String>)
    ensures
        text::texts(keys@).no_duplicates(),
        text::texts(keys@).to_set() == key_set(expression@),
{
    let all = expression.license_keys();
    let ghost lowered = keys_of(expression@).map_values(|key: Seq<char>| text::lower(key));
    let mut keys: Vec<String> = Vec::new();
    let mut i: usize = 0;
    assert(text::texts(keys@).to_set() == Set::<Seq<char>>::empty());
    assert(lowered.take(0).to_set() == Set::<Seq<char>>::empty());
    while i < all.len()
        invariant
            i <= all@.len(),
            text::texts(all@) == keys_of(expression@),
            lowered == keys_of(expression@).map_values(|key: Seq<char>| text::lower(key)),
            text::texts(keys@).no_duplicates(),
            text::texts(keys@).to_set() == lowered.take(i as int).to_set(),
        decreases all@.len() - i,
    {
        let key = text::lower_text(all[i].as_str());
        proof {
            assert(text::texts(all@)[i as int] == all@[i as int]@);
            assert(lowered.take(i + 1) == lowered.take(i as int).push(key@));
            lemma_to_set_push(lowered.take(i as int), key@);
        }
        insert_key(&mut keys, key);
        i = i + 1;
    }
    assert(text::texts(all@).len() == all@.len());
    assert(lowered.take(i as int) == lowered);
    keys
}

/// The lower-case keys of the text, each once; none where it is no expression.
pub fn collect_expression_keys(expression: &str) -> (keys: Vec<String>)
    ensures
        text::texts(keys@).no_duplicates(),
        text::texts(keys@).to_set() == expression_keys(expression@),
{
    match parse_expression(expression) {
        Ok(parsed) => lower_keys(&parsed),
        Err(_) => {
            let keys: Vec<String> = Vec::new();
            assert(text::texts(keys@).to_set() == Set::<Seq<char>>::empty());
            keys
        },
    }
}

} // verus!
