//! JSON text.
use vstd::prelude::*;
use vstd::string::*;

use crate::str_map;
use crate::str_map::StrMap;
use crate::text;

verus! {

/// The hexadecimal digit of a number below sixteen.
pub open spec fn hex_digit(n: int) -> char {
    if n < 10 {
        (48 + n) as char
    } else {
        (87 + n) as char
    }
}

/// A character inside of a JSON string.
pub open spec fn escaped_char(c: char) -> Seq<char> {
    if c == '"' || c == '\\' {
        seq!['\\', c]
    } else if c == '\u{8}' {
        seq!['\\', 'b']
    } else if c == '\t' {
        seq!['\\', 't']
    } else if c == '\n' {
        seq!['\\', 'n']
    } else if c == '\u{c}' {
        seq!['\\', 'f']
    } else if c == '\r' {
        seq!['\\', 'r']
    } else if 31 >= c as int {
        seq!['\\', 'u', '0', '0', hex_digit(c as int / 16), hex_digit(c as int % 16)]
    } else {
        seq![c]
    }
}

/// A text inside of a JSON string.
pub open spec fn escaped(s: Seq<char>) -> Seq<char>
    decreases s.len(),
{
    if s.len() == 0 {
        Seq::empty()
    } else {
        escaped(s.drop_last()) + escaped_char(s.last())
    }
}

/// The JSON string of a text.
pub open spec fn json_string(s: Seq<char>) -> Seq<char> {
    seq!['"'] + escaped(s) + seq!['"']
}

/// `serde_json::to_string` of a string writes it between quotes, with quotes, backslashes and
/// the characters below the space escaped and every other character as it is.
#[verifier::external_body]
pub(crate) fn quote(s: &str) -> (r: String)
    ensures
        r@ == json_string(s@),
{
    serde_json::to_string(s).unwrap()
}

proof fn lemma_escaped_front(s: Seq<char>)
    requires
        s.len() > 0,
    ensures
        escaped(s) == escaped_char(s[0]) + escaped(s.drop_first()),
    decreases s.len(),
{
    if s.len() == 1 {
        assert(s.drop_last() =~= Seq::<char>::empty());
        assert(s.drop_first() =~= Seq::<char>::empty());
        assert(escaped(s.drop_last()) + escaped_char(s[0]) =~= escaped_char(s[0]) + escaped(
            s.drop_first(),
        ));
    } else {
        lemma_escaped_front(s.drop_last());
        assert(s.drop_last().drop_first() =~= s.drop_first().drop_last());
        assert(escaped(s) =~= escaped_char(s[0]) + escaped(s.drop_first()));
    }
}

/// Where two escaped texts begin alike, they begin with the same character.
proof fn lemma_escaped_char(a: char, b: char, x: Seq<char>, y: Seq<char>)
    requires
        escaped_char(a) + x == escaped_char(b) + y,
    ensures
        a == b,
        x == y,
{
    let p = escaped_char(a) + x;
    assert(p[0] == escaped_char(a)[0]);
    assert(p[0] == escaped_char(b)[0]);
    if escaped_char(a).len() > 1 {
        assert(p[1] == escaped_char(a)[1]);
    }
    if escaped_char(b).len() > 1 {
        assert(p[1] == escaped_char(b)[1]);
    }
    if escaped_char(a).len() == 6 {
        assert(p[4] == escaped_char(a)[4]);
        assert(p[5] == escaped_char(a)[5]);
    }
    if escaped_char(b).len() == 6 {
        assert(p[4] == escaped_char(b)[4]);
        assert(p[5] == escaped_char(b)[5]);
    }
    assert(a == b);
    let n = escaped_char(a).len() as int;
    assert(p.skip(n) =~= x);
    assert((escaped_char(b) + y).skip(n) =~= y);
}

proof fn lemma_escaped_is_injective(s: Seq<char>, t: Seq<char>)
    requires
        escaped(s) == escaped(t),
    ensures
        s == t,
    decreases s.len(),
{
    if s.len() > 0 {
        lemma_escaped_front(s);
    }
    if t.len() > 0 {
        lemma_escaped_front(t);
    }
    if s.len() > 0 && t.len() > 0 {
        lemma_escaped_char(s[0], t[0], escaped(s.drop_first()), escaped(t.drop_first()));
        lemma_escaped_is_injective(s.drop_first(), t.drop_first());
        assert(s =~= seq![s[0]] + s.drop_first());
        assert(t =~= seq![t[0]] + t.drop_first());
    } else if s.len() > 0 {
        assert(escaped(s).len() > 0);
    } else if t.len() > 0 {
        assert(escaped(t).len() > 0);
    } else {
        assert(s =~= t);
    }
}

/// Different texts have different JSON strings.
pub proof fn lemma_json_strings_tell_texts_apart(s: Seq<char>, t: Seq<char>)
    ensures
        json_string(s) == json_string(t) <==> s == t,
{
    if json_string(s) == json_string(t) {
        let a = json_string(s);
        assert(a.subrange(1, a.len() - 1) =~= escaped(s));
        assert(a.subrange(1, a.len() - 1) =~= escaped(t));
        lemma_escaped_is_injective(s, t);
    }
}

/// A member of a JSON object whose value is the JSON text `value`.
pub open spec fn member(key: Seq<char>, value: Seq<char>) -> Seq<char> {
    json_string(key) + seq![':'] + value
}

/// The JSON object of some members.
pub open spec fn object(members: Seq<Seq<char>>) -> Seq<char> {
    seq!['{'] + text::join_text(members, seq![',']) + seq!['}']
}

/// The JSON array of some JSON texts.
pub open spec fn array(items: Seq<Seq<char>>) -> Seq<char> {
    seq!['['] + text::join_text(items, seq![',']) + seq![']']
}

/// The members of the JSON object of some text entries.
pub open spec fn text_members(entries: Seq<(Seq<char>, Seq<char>)>) -> Seq<Seq<char>> {
    Seq::new(entries.len(), |i: int| member(entries[i].0, json_string(entries[i].1)))
}

/// The JSON strings of some texts.
pub open spec fn strings(items: Seq<Seq<char>>) -> Seq<Seq<char>> {
    Seq::new(items.len(), |i: int| json_string(items[i]))
}

/// The JSON text of a truth value.
pub open spec fn boolean(b: bool) -> Seq<char> {
    if b {
        "true"@
    } else {
        "false"@
    }
}

/// The JSON text of a whole number.
pub open spec fn integer(n: int) -> Seq<char> {
    if n < 0 {
        seq!['-'] + text::decimal_text((-n) as nat)
    } else {
        text::decimal_text(n as nat)
    }
}

/// Writes a whole number.
pub fn write_integer(n: i64) -> (r: String)
    ensures
        r@ == integer(n as int),
{
    if n < 0 {
        let magnitude: u64 = (-(n + 1)) as u64 + 1;
        let mut out = String::new();
        out.push('-');
        let digits = text::decimal(magnitude);
        out.append(digits.as_str());
        assert(out@ =~= integer(n as int));
        out
    } else {
        text::decimal(n as u64)
    }
}

/// Adds a member whose value is the JSON text `value`.
pub fn push_member(members: &mut Vec<String>, key: &str, value: &str)
    ensures
        text::texts(final(members)@) == text::texts(old(members)@).push(member(key@, value@)),
{
    let ghost before = text::texts(members@);
    let mut m = quote(key);
    m.push(':');
    m.append(value);
    assert(m@ =~= member(key@, value@));
    members.push(m);
    assert(text::texts(members@) =~= before.push(member(key@, value@)));
}

/// Adds a member whose value is a text.
pub fn push_text(members: &mut Vec<String>, key: &str, value: &str)
    ensures
        text::texts(final(members)@) == text::texts(old(members)@).push(
            member(key@, json_string(value@)),
        ),
{
    let v = quote(value);
    push_member(members, key, v.as_str());
}

/// The member of an optional text, where there is one.
pub open spec fn opt_member(key: Seq<char>, value: Option<Seq<char>>) -> Seq<Seq<char>> {
    match value {
        Some(v) => seq![member(key, json_string(v))],
        None => Seq::empty(),
    }
}

/// Adds the member of an optional text, where there is one.
pub fn push_opt_text(members: &mut Vec<String>, key: &str, value: &Option<String>)
    ensures
        text::texts(final(members)@) == text::texts(old(members)@) + opt_member(
            key@,
            text::opt_text(*value),
        ),
{
    let ghost before = text::texts(members@);
    match value {
        Some(v) => {
            push_text(members, key, v.as_str());
            assert(text::texts(members@) =~= before + seq![member(key@, json_string(v@))]);
        },
        None => {
            assert(text::texts(members@) =~= before + Seq::<Seq<char>>::empty());
        },
    }
}

/// Writes an object.
pub fn write_object(members: &Vec<String>) -> (r: String)
    ensures
        r@ == object(text::texts(members@)),
{
    let mut out = String::new();
    out.push('{');
    let inner = text::join(members, ",");
    out.append(inner.as_str());
    out.push('}');
    proof {
        reveal_strlit(",");
        assert(","@ =~= seq![',']);
        assert(out@ =~= object(text::texts(members@)));
    }
    out
}

/// Writes an array.
pub fn write_array(items: &Vec<String>) -> (r: String)
    ensures
        r@ == array(text::texts(items@)),
{
    let mut out = String::new();
    out.push('[');
    let inner = text::join(items, ",");
    out.append(inner.as_str());
    out.push(']');
    proof {
        reveal_strlit(",");
        assert(","@ =~= seq![',']);
        assert(out@ =~= array(text::texts(items@)));
    }
    out
}

/// Writes the object of a map of texts.
pub fn write_text_map(entries: &StrMap<String>) -> (r: String)
    ensures
        r@ == object(text_members(str_map::text_entries(entries@))),
{
    let ghost all = text_members(str_map::text_entries(entries@));
    let mut members: Vec<String> = Vec::new();
    let mut i: usize = 0;
    assert(text::texts(members@) =~= all.take(0));
    while i < entries.len()
        invariant
            i <= entries@.len(),
            all == text_members(str_map::text_entries(entries@)),
            text::texts(members@) == all.take(i as int),
        decreases entries@.len() - i,
    {
        let (key, value) = entries.entry_at(i);
        push_text(&mut members, key.as_str(), value.as_str());
        assert(all.take(i as int).push(all[i as int]) =~= all.take(i + 1));
        i = i + 1;
    }
    assert(all.take(all.len() as int) =~= all);
    write_object(&members)
}

/// Writes the array of some texts.
pub fn write_text_array(items: &Vec<String>) -> (r: String)
    ensures
        r@ == array(strings(text::texts(items@))),
{
    let ghost all = strings(text::texts(items@));
    let mut out: Vec<String> = Vec::new();
    let mut i: usize = 0;
    assert(text::texts(out@) =~= all.take(0));
    while i < items.len()
        invariant
            i <= items@.len(),
            all == strings(text::texts(items@)),
            text::texts(out@) == all.take(i as int),
        decreases items@.len() - i,
    {
        let ghost before = text::texts(out@);
        out.push(quote(items[i].as_str()));
        assert(text::texts(out@) =~= before.push(all[i as int]));
        assert(all.take(i as int).push(all[i as int]) =~= all.take(i + 1));
        i = i + 1;
    }
    assert(all.take(all.len() as int) =~= all);
    write_array(&out)
}

} // verus!
