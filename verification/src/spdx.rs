//! Rendering license expressions and combining several into one.
use vstd::prelude::*;

use crate::expression;
use crate::expression::LicenseExpression;
use crate::text;

verus! {

/// A text in parentheses.
pub open spec fn grouped(s: Seq<char>) -> Seq<char> {
    "("@ + s + ")"@
}

pub open spec fn grouped_if(s: Seq<char>, group: bool) -> Seq<char> {
    if group {
        grouped(s)
    } else {
        s
    }
}

/// The text of an expression, with the parentheses that its structure needs and
/// no others.
pub open spec fn rendered(e: expression::Expr) -> Seq<char>
    decreases e,
{
    match e {
        expression::Expr::License(key) => key,
        expression::Expr::Or(l, r) => rendered(*l) + " OR "@ + grouped_if(rendered(*r), *r is Or),
        expression::Expr::And(l, r) => grouped_if(rendered(*l), *l is Or) + " AND "@ + grouped_if(
            rendered(*r),
            *r is Or || *r is And,
        ),
        expression::Expr::With(l, r) => grouped_if(rendered(*l), !(*l is License)) + " WITH "@
            + grouped_if(rendered(*r), !(*r is License)),
    }
}

/// One of several expressions that are combined.
pub struct Operand {
    pub text: Seq<char>,
    /// The text is a choice, which `AND` would split.
    pub choice: bool,
}

/// The operand that a text stands for: its expression without parentheses that
/// it does not need, or the text itself where it is no expression.
pub open spec fn operand_of(s: Seq<char>) -> Operand {
    match expression::parsed(s) {
        Some(e) => Operand { text: rendered(e), choice: e is Or },
        None => Operand { text: s, choice: false },
    }
}

/// The operands of a list of expressions: each once, in the order in which they
/// first occur, without those that are blank.
pub open spec fn operands_of(expressions: Seq<Seq<char>>) -> Seq<Operand>
    decreases expressions.len(),
{
    if expressions.len() == 0 {
        seq![]
    } else {
        let before = operands_of(expressions.drop_last());
        let last = text::trim_of(expressions.last());
        if last.len() == 0 || before.contains(operand_of(last)) {
            before
        } else {
            before.push(operand_of(last))
        }
    }
}

/// The operands joined by `AND`.
pub open spec fn conjunction(operands: Seq<Operand>) -> Seq<char>
    decreases operands.len(),
{
    if operands.len() == 0 {
        seq![]
    } else if operands.len() == 1 {
        grouped_if(operands[0].text, operands[0].choice)
    } else {
        conjunction(operands.drop_last()) + " AND "@ + grouped_if(
            operands.last().text,
            operands.last().choice,
        )
    }
}

/// Several expressions as one: what all of them ask for.
pub open spec fn combined(expressions: Seq<Seq<char>>) -> Option<Seq<char>> {
    let operands = operands_of(expressions);
    if operands.len() == 0 {
        None
    } else if operands.len() == 1 {
        Some(operands[0].text)
    } else {
        Some(conjunction(operands))
    }
}

/// Each of the texts is blank or an expression.
pub open spec fn all_parse(expressions: Seq<Seq<char>>) -> bool {
    forall|i: int|
        0 <= i < expressions.len() && text::trim_of(#[trigger] expressions[i]).len() > 0
            ==> expression::parsed(text::trim_of(expressions[i])) is Some
}

/// Several expressions as one, where each is one.
pub open spec fn combined_strict(expressions: Seq<Seq<char>>) -> Option<Seq<char>> {
    if all_parse(expressions) {
        combined(expressions)
    } else {
        None
    }
}

/// The texts of a list: each once, in the order in which they first occur,
/// without those that are empty.
pub open spec fn unique_of(expressions: Seq<Seq<char>>) -> Seq<Seq<char>>
    decreases expressions.len(),
{
    if expressions.len() == 0 {
        seq![]
    } else {
        let before = unique_of(expressions.drop_last());
        if expressions.last().len() == 0 || before.contains(expressions.last()) {
            before
        } else {
            before.push(expressions.last())
        }
    }
}

/// The text is an expression with an operator.
pub open spec fn is_joined(s: Seq<char>) -> bool {
    match expression::parsed(s) {
        Some(e) => !(e is License),
        None => false,
    }
}

/// The expression at `j` alone has an operator, and the keys of all the others
/// are among its keys.
pub open spec fn covers_others(list: Seq<Seq<char>>, j: int) -> bool {
    &&& 0 <= j < list.len()
    &&& is_joined(list[j])
    &&& forall|i: int|
        0 <= i < list.len() && i != j ==> covered_by(#[trigger] list[i], list[j])
}

/// The text is a single key, which is a key of the other expression.
pub open spec fn covered_by(s: Seq<char>, other: Seq<char>) -> bool {
    &&& expression::parsed(s) is Some
    &&& !is_joined(s)
    &&& expression::expression_keys(s).subset_of(expression::expression_keys(other))
}

/// The expression that stands for all of a list, if there is one: the only one,
/// or one that covers the others.
pub open spec fn primary(expressions: Seq<Seq<char>>) -> Option<Seq<char>> {
    let list = unique_of(expressions);
    if list.len() == 1 {
        Some(list[0])
    } else if exists|j: int| covers_others(list, j) {
        Some(list[choose|j: int| covers_others(list, j)])
    } else {
        None
    }
}

/// At most one expression covers the others.
pub proof fn lemma_covers_others_unique(list: Seq<Seq<char>>, a: int, b: int)
    requires
        covers_others(list, a),
        covers_others(list, b),
    ensures
        a == b,
{
    if a != b {
        assert(covered_by(list[a], list[b]));
    }
}

/// The string in parentheses, where `group` holds.
fn group_text(s: String, group: bool) -> (r: String)
    ensures
        r@ == grouped_if(s@, group),
{
    if group {
        let mut r = String::new();
        r.append("(");
        r.append(s.as_str());
        r.append(")");
        assert(Seq::<char>::empty() + "("@ == "("@);
        r
    } else {
        s
    }
}

fn is_or(e: &LicenseExpression) -> (r: bool)
    ensures
        r == (e@ is Or),
{
    match e {
        LicenseExpression::Or { .. } => true,
        _ => false,
    }
}

fn is_and(e: &LicenseExpression) -> (r: bool)
    ensures
        r == (e@ is And),
{
    match e {
        LicenseExpression::And { .. } => true,
        _ => false,
    }
}

fn is_license(e: &LicenseExpression) -> (r: bool)
    ensures
        r == (e@ is License),
{
    match e {
        LicenseExpression::License(_) => true,
        _ => false,
    }
}

/// The text of an expression.
pub fn render(e: &LicenseExpression) -> (r: String)
    ensures
        r@ == rendered(e@),
    decreases e,
{
    match e {
        LicenseExpression::License(key) => key.clone(),
        LicenseExpression::Or { left, right } => {
            let mut r = render(left);
            r.append(" OR ");
            r.append(group_text(render(right), is_or(right)).as_str());
            r
        },
        LicenseExpression::And { left, right } => {
            let mut r = group_text(render(left), is_or(left));
            r.append(" AND ");
            r.append(group_text(render(right), is_or(right) || is_and(right)).as_str());
            r
        },
        LicenseExpression::With { left, right } => {
            let mut r = group_text(render(left), !is_license(left));
            r.append(" WITH ");
            r.append(group_text(render(right), !is_license(right)).as_str());
            r
        },
    }
}

/// An operand as a value.
struct Part {
    text: String,
    choice: bool,
}

impl View for Part {
    type V = Operand;

    closed spec fn view(&self) -> Operand {
        Operand { text: self.text@, choice: self.choice }
    }
}

spec fn parts(list: Seq<Part>) -> Seq<Operand> {
    list.map_values(|p: Part| p@)
}

/// The operand of a text, and whether the text is an expression.
fn part_of(s: &str) -> (r: (Part, bool))
    ensures
        r.0@ == operand_of(s@),
        r.1 == expression::parsed(s@) is Some,
{
    match expression::parse_expression(s) {
        Ok(e) => (Part { text: render(&e), choice: is_or(&e) }, true),
        Err(_) => (Part { text: s.to_owned(), choice: false }, false),
    }
}

fn has_part(list: &Vec<Part>, part: &Part) -> (r: bool)
    ensures
        r == parts(list@).contains(part@),
{
    let mut i: usize = 0;
    while i < list.len()
        invariant
            i <= list@.len(),
            forall|j: int| 0 <= j < i ==> list@[j]@ != part@,
        decreases list@.len() - i,
    {
        if list[i].text == part.text && list[i].choice == part.choice {
            assert(parts(list@)[i as int] == part@);
            return true;
        }
        i = i + 1;
    }
    proof {
        if parts(list@).contains(part@) {
            let j = choose|j: int| 0 <= j < list@.len() && parts(list@)[j] == part@;
            assert(list@[j]@ == part@);
        }
    }
    false
}

/// The operands of a list of expressions, and whether each is blank or an
/// expression.
fn collect_parts(expressions: &Vec<String>) -> (r: (Vec<Part>, bool))
    ensures
        parts(r.0@) == operands_of(text::texts(expressions@)),
        r.1 == all_parse(text::texts(expressions@)),
{
    let ghost all = text::texts(expressions@);
    let mut list: Vec<Part> = Vec::new();
    let mut parse = true;
    let mut i: usize = 0;
    assert(parts(list@) == operands_of(all.take(0)));
    while i < expressions.len()
        invariant
            all == text::texts(expressions@),
            i <= expressions@.len(),
            parts(list@) == operands_of(all.take(i as int)),
            parse == all_parse(all.take(i as int)),
        decreases expressions@.len() - i,
    {
        let chars = text::to_chars(expressions[i].as_str());
        let trimmed = text::trim(&chars);
        proof {
            assert(all.take(i + 1).drop_last() == all.take(i as int));
            assert(all.take(i + 1).last() == all[i as int]);
            assert(all[i as int] == expressions@[i as int]@);
            assert forall|j: int| 0 <= j < i implies all.take(i as int)[j] == all.take(i + 1)[j] by {}
        }
        let ghost parse_before = parse;
        if trimmed.len() > 0 {
            let (part, is_expression) = part_of(text::to_text(trimmed).as_str());
            if !is_expression {
                parse = false;
            }
            if !has_part(&list, &part) {
                let ghost before = parts(list@);
                let ghost added = part@;
                list.push(part);
                assert(parts(list@) == before.push(added));
            }
        }
        proof {
            let now = all.take(i + 1);
            let then = all.take(i as int);
            if parse {
                assert(all_parse(now)) by {
                    assert forall|j: int|
                        0 <= j < now.len() && text::trim_of(#[trigger] now[j]).len()
                            > 0 implies expression::parsed(text::trim_of(now[j])) is Some by {
                        if j < i {
                            assert(then[j] == now[j]);
                        }
                    }
                }
            } else if parse_before {
                assert(!all_parse(now)) by {
                    assert(text::trim_of(now[i as int]).len() > 0);
                }
            } else {
                assert(!all_parse(now)) by {
                    let j = choose|j: int|
                        0 <= j < then.len() && text::trim_of(#[trigger] then[j]).len() > 0
                            && expression::parsed(text::trim_of(then[j])) is None;
                    assert(now[j] == then[j]);
                }
            }
        }
        i = i + 1;
    }
    assert(all.take(i as int) == all);
    (list, parse)
}

/// The operands joined into one expression.
fn join_parts(list: &Vec<Part>) -> (r: Option<String>)
    ensures
        parts(list@).len() == 0 ==> r is None,
        parts(list@).len() == 1 ==> r is Some && r->0@ == parts(list@)[0].text,
        parts(list@).len() >= 2 ==> r is Some && r->0@ == conjunction(parts(list@)),
{
    let ghost all = parts(list@);
    if list.len() == 0 {
        return None;
    }
    if list.len() == 1 {
        assert(all[0] == list@[0]@);
        return Some(list[0].text.clone());
    }
    assert(all[0] == list@[0]@);
    let mut r = group_text(list[0].text.clone(), list[0].choice);
    let mut i: usize = 1;
    assert(all.take(1)[0] == all[0]);
    while i < list.len()
        invariant
            all == parts(list@),
            1 <= i <= list@.len(),
            r@ == conjunction(all.take(i as int)),
        decreases list@.len() - i,
    {
        proof {
            assert(all[i as int] == list@[i as int]@);
            assert(all.take(i + 1).drop_last() == all.take(i as int));
            assert(all.take(i + 1).last() == all[i as int]);
        }
        r.append(" AND ");
        r.append(group_text(list[i].text.clone(), list[i].choice).as_str());
        i = i + 1;
    }
    assert(all.take(i as int) == all);
    Some(r)
}

/// Combines expressions into one that asks for all of them. What is no
/// expression goes in as it stands.
pub fn combine_license_expressions_preserving_structure(expressions: &Vec<String>) -> (r: Option<
    String,
>)
    ensures
        text::opt_text(r) == combined(text::texts(expressions@)),
{
    let (list, _) = collect_parts(expressions);
    join_parts(&list)
}

/// Combines expressions into one that asks for all of them; nothing comes out
/// where one of them is neither blank nor an expression.
pub fn combine_license_expressions_preserving_structure_strict(expressions: &Vec<String>) -> (r:
    Option<String>)
    ensures
        text::opt_text(r) == combined_strict(text::texts(expressions@)),
{
    let (list, parse) = collect_parts(expressions);
    if parse {
        join_parts(&list)
    } else {
        None
    }
}

/// Whether the text is in the list.
fn has_string(list: &Vec<String>, s: &String) -> (r: bool)
    ensures
        r == text::texts(list@).contains(s@),
{
    expression::has_key(list, s)
}

fn collect_unique(expressions: &Vec<String>) -> (r: Vec<String>)
    ensures
        text::texts(r@) == unique_of(text::texts(expressions@)),
{
    let ghost all = text::texts(expressions@);
    let mut list: Vec<String> = Vec::new();
    let mut i: usize = 0;
    assert(text::texts(list@) == unique_of(all.take(0)));
    while i < expressions.len()
        invariant
            all == text::texts(expressions@),
            i <= expressions@.len(),
            text::texts(list@) == unique_of(all.take(i as int)),
        decreases expressions@.len() - i,
    {
        proof {
            assert(all.take(i + 1).drop_last() == all.take(i as int));
            assert(all.take(i + 1).last() == expressions@[i as int]@);
        }
        if !expressions[i].as_str().is_empty() && !has_string(&list, &expressions[i]) {
            let ghost before = text::texts(list@);
            list.push(expressions[i].clone());
            assert(text::texts(list@) == before.push(expressions@[i as int]@));
        }
        i = i + 1;
    }
    assert(all.take(i as int) == all);
    list
}

fn joined_expression(s: &String) -> (r: bool)
    ensures
        r == is_joined(s@),
{
    match expression::parse_expression(s.as_str()) {
        Ok(e) => !is_license(&e),
        Err(_) => false,
    }
}

fn is_covered_by(s: &String, other: &String) -> (r: bool)
    ensures
        r == covered_by(s@, other@),
{
    match expression::parse_expression(s.as_str()) {
        Ok(e) => {
            let keys = expression::collect_expression_keys(s.as_str());
            let held = expression::collect_expression_keys(other.as_str());
            is_license(&e) && expression::has_all_keys(&held, &keys)
        },
        Err(_) => false,
    }
}

fn covers(list: &Vec<String>, j: usize) -> (r: bool)
    requires
        j < list@.len(),
    ensures
        r == covers_others(text::texts(list@), j as int),
{
    let ghost all = text::texts(list@);
    assert(all[j as int] == list@[j as int]@);
    if !joined_expression(&list[j]) {
        return false;
    }
    let mut i: usize = 0;
    while i < list.len()
        invariant
            all == text::texts(list@),
            j < list@.len(),
            all[j as int] == list@[j as int]@,
            i <= list@.len(),
            forall|k: int| 0 <= k < i && k != j ==> covered_by(#[trigger] all[k], all[j as int]),
        decreases list@.len() - i,
    {
        assert(all[i as int] == list@[i as int]@);
        if i != j && !is_covered_by(&list[i], &list[j]) {
            return false;
        }
        i = i + 1;
    }
    true
}

/// Selects the expression that stands for all of the list, if there is one.
pub fn select_primary_license_expression(expressions: &Vec<String>) -> (r: Option<String>)
    ensures
        text::opt_text(r) == primary(text::texts(expressions@)),
{
    let list = collect_unique(expressions);
    let ghost all = text::texts(list@);
    if list.len() == 1 {
        assert(all[0] == list@[0]@);
        return Some(list[0].clone());
    }
    let mut j: usize = 0;
    while j < list.len()
        invariant
            all == text::texts(list@),
            all == unique_of(text::texts(expressions@)),
            all.len() != 1,
            j <= list@.len(),
            forall|k: int| 0 <= k < j ==> !covers_others(all, k),
        decreases list@.len() - j,
    {
        if covers(&list, j) {
            proof {
                let chosen = choose|k: int| covers_others(all, k);
                lemma_covers_others_unique(all, j as int, chosen);
                assert(all[j as int] == list@[j as int]@);
            }
            return Some(list[j].clone());
        }
        j = j + 1;
    }
    None
}

} // verus!
