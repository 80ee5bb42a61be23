//! JSON objects as text.
use vstd::prelude::*;

verus! {

/// A hexadecimal digit, in lower case.
pub open spec fn hex_digit(n: nat) -> char {
    if n < 10 {
        ('0' as nat + n) as char
    } else {
        ('a' as nat + n - 10) as char
    }
}

/// How a character stands in a JSON string. Quotes, backslashes and control
/// characters below the space are escaped, those with a short form by it.
pub open spec fn escaped(c: char) -> Seq<char> {
    if c == '"' {
        seq!['\\', '"']
    } else if c == '\\' {
        seq!['\\', '\\']
    } else if c == '\u{8}' {
        seq!['\\', 'b']
    } else if c == '\t' {
        seq!['\\', 't']
    } else if c == '\n' {
        seq!['\\', 'n']
    } else if c == '\u{c}' {
        seq!['\\', 'f']
    } else if c == '\r' {
        seq!['\\', 'r']
    } else if (c as nat) < 32 {
        seq!['\\', 'u', '0', '0', hex_digit(c as nat / 16), hex_digit(c as nat % 16)]
    } else {
        seq![c]
    }
}

/// A string with its escapes.
pub open spec fn escaped_text(s: Seq<char>) -> Seq<char>
    decreases s.len(),
{
    if s.len() == 0 {
        seq![]
    } else {
        escaped_text(s.drop_last()) + escaped(s.last())
    }
}

/// A string as a JSON string.
pub open spec fn json_text(s: Seq<char>) -> Seq<char> {
    seq!['"'] + escaped_text(s) + seq!['"']
}

/// Strings as JSON strings, with commas between them.
pub open spec fn listed_text(strings: Seq<Seq<char>>) -> Seq<char>
    decreases strings.len(),
{
    if strings.len() == 0 {
        seq![]
    } else if strings.len() == 1 {
        json_text(strings[0])
    } else {
        listed_text(strings.drop_last()) + seq![','] + json_text(strings.last())
    }
}

/// Strings as a JSON array.
pub open spec fn array_text(strings: Seq<Seq<char>>) -> Seq<char> {
    seq!['['] + listed_text(strings) + seq![']']
}

/// `serde_json::to_string` of a string: the string in quotes, with the escapes of
/// [`escaped`]. A string always has a JSON form.
#[verifier::external_body]
pub(crate) fn json_string(s: &str) -> (r: String)
    ensures
        r@ == json_text(s@),
{
    serde_json::to_string(s).expect("a string has a JSON form")
}

/// A member of a JSON object: its name, and the JSON text of its value.
#[derive(Debug)]
pub struct Member {
    pub name: &'static str,
    pub value: String,
}

impl View for Member {
    type V = (Seq<char>, Seq<char>);

    open spec fn view(&self) -> (Seq<char>, Seq<char>) {
        (self.name@, self.value@)
    }
}

pub open spec fn member_views(members: Seq<Member>) -> Seq<(Seq<char>, Seq<char>)> {
    members.map_values(|m: Member| m@)
}

/// A member as text.
pub open spec fn member_text(m: (Seq<char>, Seq<char>)) -> Seq<char> {
    seq!['"'] + m.0 + seq!['"', ':'] + m.1
}

/// Members as text, with commas between them.
pub open spec fn members_text(members: Seq<(Seq<char>, Seq<char>)>) -> Seq<char>
    decreases members.len(),
{
    if members.len() == 0 {
        seq![]
    } else if members.len() == 1 {
        member_text(members[0])
    } else {
        members_text(members.drop_last()) + seq![','] + member_text(members.last())
    }
}

/// An object as text.
pub open spec fn object_text(members: Seq<(Seq<char>, Seq<char>)>) -> Seq<char> {
    seq!['{'] + members_text(members) + seq!['}']
}

/// The text of the object with the given members, whose names need no escapes.
pub fn frame_object(members: &Vec<Member>) -> (r: String)
    ensures
        r@ == object_text(member_views(members@)),
{
    let ghost all = member_views(members@);
    let mut r = String::new();
    r.push('{');
    let mut i: usize = 0;
    assert(all.take(0) == Seq::<(Seq<char>, Seq<char>)>::empty());
    assert(r@ == seq!['{'] + members_text(all.take(0)));
    while i < members.len()
        invariant
            all == member_views(members@),
            i <= members@.len(),
            r@ == seq!['{'] + members_text(all.take(i as int)),
        decreases members@.len() - i,
    {
        let ghost before = r@;
        proof {
            assert(all[i as int] == members@[i as int]@);
            assert(all.take(i + 1).drop_last() == all.take(i as int));
            assert(all.take(i + 1).last() == all[i as int]);
        }
        if i > 0 {
            r.push(',');
        }
        r.push('"');
        r.append(members[i].name);
        r.push('"');
        r.push(':');
        r.append(members[i].value.as_str());
        proof {
            if i > 0 {
                assert(r@ == before + (seq![','] + member_text(all[i as int])));
                assert(r@ == seq!['{'] + members_text(all.take(i + 1)));
            } else {
                assert(all.take(1)[0] == all[0]);
                assert(r@ == seq!['{'] + member_text(all[0]));
            }
        }
        i = i + 1;
    }
    assert(all.take(i as int) == all);
    r.push('}');
    r
}

/// JSON text of a truth value.
pub open spec fn bool_text(b: bool) -> Seq<char> {
    if b {
        "true"@
    } else {
        "false"@
    }
}

/// JSON text of a truth value.
pub fn json_bool(b: bool) -> (r: String)
    ensures
        r@ == bool_text(b),
{
    if b {
        "true".to_owned()
    } else {
        "false".to_owned()
    }
}

/// An object with one member more is the object with the member in front of its
/// closing brace, behind a comma where it is not the first.
pub proof fn law_object_text(members: Seq<(Seq<char>, Seq<char>)>, m: (Seq<char>, Seq<char>))
    ensures
        object_text(Seq::<(Seq<char>, Seq<char>)>::empty()) == seq!['{', '}'],
        members.len() == 0 ==> object_text(members.push(m)) == seq!['{', '"'] + m.0 + seq![
            '"',
            ':',
        ] + m.1 + seq!['}'],
        members.len() > 0 ==> object_text(members.push(m)) == object_text(members).drop_last()
            + seq![',', '"'] + m.0 + seq!['"', ':'] + m.1 + seq!['}'],
{
    assert(object_text(Seq::<(Seq<char>, Seq<char>)>::empty()) =~= seq!['{', '}']);
    let longer = members.push(m);
    assert(longer.drop_last() == members);
    assert(longer.last() == m);
    if members.len() == 0 {
        assert(longer[0] == m);
        assert(object_text(longer) =~= seq!['{', '"'] + m.0 + seq!['"', ':'] + m.1 + seq!['}']);
    } else {
        assert(object_text(members).drop_last() =~= seq!['{'] + members_text(members));
        assert(object_text(longer) =~= object_text(members).drop_last() + seq![',', '"'] + m.0
            + seq!['"', ':'] + m.1 + seq!['}']);
    }
}

/// An array with one string more is the array with the string in front of its closing
/// bracket, behind a comma where it is not the first.
pub proof fn law_array_text(strings: Seq<Seq<char>>, s: Seq<char>)
    ensures
        array_text(Seq::<Seq<char>>::empty()) == seq!['[', ']'],
        strings.len() == 0 ==> array_text(strings.push(s)) == seq!['['] + json_text(s) + seq![']'],
        strings.len() > 0 ==> array_text(strings.push(s)) == array_text(strings).drop_last() + seq![
            ',',
        ] + json_text(s) + seq![']'],
{
    assert(array_text(Seq::<Seq<char>>::empty()) =~= seq!['[', ']']);
    let longer = strings.push(s);
    assert(longer.drop_last() == strings);
    assert(longer.last() == s);
    if strings.len() == 0 {
        assert(longer[0] == s);
    } else {
        assert(array_text(strings).drop_last() =~= seq!['['] + listed_text(strings));
        assert(array_text(longer) =~= array_text(strings).drop_last() + seq![','] + json_text(s)
            + seq![']']);
    }
}

/// A string is written between quotes, character by character: a quote, a backslash
/// and a control character by an escape, any other as itself.
pub proof fn law_json_text(a: Seq<char>, b: Seq<char>, c: char)
    ensures
        json_text(Seq::<char>::empty()) == seq!['"', '"'],
        json_text(a + b) == json_text(a).drop_last() + json_text(b).skip(1),
        c == '"' || c == '\\' ==> json_text(seq![c]) == seq!['"', '\\', c, '"'],
        c as nat >= 32 && c != '"' && c != '\\' ==> json_text(seq![c]) == seq!['"', c, '"'],
        c == '\n' ==> json_text(seq![c]) == seq!['"', '\\', 'n', '"'],
        c == '\t' ==> json_text(seq![c]) == seq!['"', '\\', 't', '"'],
        c == '\r' ==> json_text(seq![c]) == seq!['"', '\\', 'r', '"'],
        c == '\u{8}' ==> json_text(seq![c]) == seq!['"', '\\', 'b', '"'],
        c == '\u{c}' ==> json_text(seq![c]) == seq!['"', '\\', 'f', '"'],
{
    assert(json_text(Seq::<char>::empty()) =~= seq!['"', '"']);
    lemma_escaped_concat(a, b);
    assert(json_text(a).drop_last() =~= seq!['"'] + escaped_text(a));
    assert(json_text(b).skip(1) =~= escaped_text(b) + seq!['"']);
    assert(json_text(a + b) =~= json_text(a).drop_last() + json_text(b).skip(1));
    let one = seq![c];
    assert(one.drop_last() =~= Seq::<char>::empty());
    assert(escaped_text(one.drop_last()) =~= Seq::<char>::empty());
    assert(escaped_text(one) =~= escaped(c));
    assert(json_text(one) =~= seq!['"'] + escaped(c) + seq!['"']);
}

proof fn lemma_escaped_concat(a: Seq<char>, b: Seq<char>)
    ensures
        escaped_text(a + b) == escaped_text(a) + escaped_text(b),
    decreases b.len(),
{
    if b.len() == 0 {
        assert(a + b == a);
        assert(escaped_text(a) + escaped_text(b) =~= escaped_text(a));
    } else {
        lemma_escaped_concat(a, b.drop_last());
        assert((a + b).drop_last() == a + b.drop_last());
        assert(escaped_text(a + b) =~= escaped_text(a) + escaped_text(b));
    }
}

/// The number of a control character is written with two digits to the base sixteen.
pub proof fn law_control_characters(c: char)
    requires
        (c as nat) < 32,
        escaped(c).len() == 6,
    ensures
        escaped(c).take(4) == seq!['\\', 'u', '0', '0'],
        escaped(c)[4] as int - '0' as int == c as int / 16,
        c as int % 16 < 10 ==> escaped(c)[5] as int - '0' as int == c as int % 16,
        c as int % 16 >= 10 ==> escaped(c)[5] as int - 'a' as int == c as int % 16 - 10,
{
}

} // verus!
