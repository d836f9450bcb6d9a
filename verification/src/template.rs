//! Tiny `${VAR}` substitution helper for YAML/JSON templates.
//!
//! This is used for deployment-friendly configuration where the container image can ship a static
//! document that references environment variables injected by the runtime (for example, an App
//! Runner service can inject the deployed Lambda ARN into the document at startup).
use vstd::prelude::*;
use vstd::string::*;

use crate::text;

verus! {

/// The characters with which the name of a variable begins.
pub open spec fn starts_name(c: char) -> bool {
    'A' <= c <= 'Z' || 'a' <= c <= 'z' || c == '_'
}

/// The characters of the name of a variable.
pub open spec fn continues_name(c: char) -> bool {
    starts_name(c) || '0' <= c <= '9'
}

/// Whether a text is the name of a variable.
pub open spec fn is_env_name(name: Seq<char>) -> bool {
    &&& name.len() > 0
    &&& starts_name(name[0])
    &&& forall|i: int| 0 <= i < name.len() ==> continues_name(#[trigger] name[i])
}

/// What is said of a text that is not the name of a variable.
pub open spec fn name_fault(name: Seq<char>) -> Seq<char> {
    if name.len() == 0 {
        "empty placeholder name"@
    } else {
        "invalid placeholder name: "@ + name
    }
}

fn may_start_name(c: char) -> (r: bool)
    ensures
        r == starts_name(c),
{
    ('A' <= c && c <= 'Z') || ('a' <= c && c <= 'z') || c == '_'
}

/// Checks the name of a variable: `[A-Za-z_][A-Za-z0-9_]*`.
pub fn validate_env_name(name: &str) -> (r: Result<(), String>)
    ensures
        r is Ok <==> is_env_name(name@),
        r matches Err(e) ==> e@ == name_fault(name@),
{
    let chars = text::to_chars(name);
    if chars.len() == 0 {
        return Err("empty placeholder name".to_owned());
    }
    if !may_start_name(chars[0]) {
        return Err(text::concat("invalid placeholder name: ", name));
    }
    let mut i: usize = 1;
    while i < chars.len()
        invariant
            1 <= i <= chars@.len(),
            chars@ == name@,
            starts_name(chars@[0]),
            forall|j: int| 0 <= j < i ==> continues_name(#[trigger] chars@[j]),
        decreases chars@.len() - i,
    {
        if !(may_start_name(chars[i]) || ('0' <= chars[i] && chars[i] <= '9')) {
            assert(!continues_name(chars@[i as int]));
            return Err(text::concat("invalid placeholder name: ", name));
        }
        i = i + 1;
    }
    Ok(())
}

/// Whether a placeholder begins at the start of a text.
pub open spec fn at_placeholder(s: Seq<char>) -> bool {
    s.len() >= 2 && s[0] == '$' && s[1] == '{'
}

/// The number of characters of the name of the placeholder at the start of a text.
pub open spec fn name_len(s: Seq<char>) -> nat {
    text::piece_len(s.skip(2), '}')
}

/// Whether the placeholder at the start of a text ends.
pub open spec fn is_terminated(s: Seq<char>) -> bool {
    name_len(s) + 2 < s.len()
}

/// The name of the placeholder at the start of a text.
pub open spec fn placeholder_name(s: Seq<char>) -> Seq<char> {
    s.subrange(2, name_len(s) as int + 2)
}

/// The text behind the placeholder at its start.
pub open spec fn after_placeholder(s: Seq<char>) -> Seq<char> {
    s.skip(name_len(s) as int + 3)
}

/// A result with a text in front of it.
pub open spec fn prepended(
    front: Seq<char>,
    r: Result<Seq<char>, Seq<char>>,
) -> Result<Seq<char>, Seq<char>> {
    match r {
        Ok(s) => Ok(front + s),
        Err(e) => Err(e),
    }
}

/// A template whose placeholders have the values `found`, in order: each placeholder is
/// replaced by its value, and all other text stays as it is. The first placeholder that is
/// wrong or has no value is an error.
pub open spec fn rendered(s: Seq<char>, found: Seq<Option<Seq<char>>>) -> Result<
    Seq<char>,
    Seq<char>,
>
    decreases s.len(),
{
    if s.len() == 0 {
        Ok(Seq::empty())
    } else if !at_placeholder(s) {
        prepended(seq![s[0]], rendered(s.drop_first(), found))
    } else if !is_terminated(s) {
        Err("unterminated placeholder"@)
    } else if !is_env_name(placeholder_name(s)) {
        Err(name_fault(placeholder_name(s)))
    } else {
        match found[0] {
            None => Err("missing environment variable: "@ + placeholder_name(s)),
            Some(v) => prepended(v, rendered(after_placeholder(s), found.drop_first())),
        }
    }
}

/// The names of the placeholders of a template, in order, up to the first that is wrong.
pub open spec fn placeholder_names(s: Seq<char>) -> Seq<Seq<char>>
    decreases s.len(),
{
    if s.len() == 0 {
        Seq::empty()
    } else if !at_placeholder(s) {
        placeholder_names(s.drop_first())
    } else if !is_terminated(s) || !is_env_name(placeholder_name(s)) {
        Seq::empty()
    } else {
        seq![placeholder_name(s)] + placeholder_names(after_placeholder(s))
    }
}

/// The names of placeholders are names of variables.
pub proof fn lemma_placeholder_names_are_names(s: Seq<char>, i: int)
    requires
        0 <= i < placeholder_names(s).len(),
    ensures
        is_env_name(placeholder_names(s)[i]),
    decreases s.len(),
{
    if !at_placeholder(s) {
        lemma_placeholder_names_are_names(s.drop_first(), i);
    } else if i > 0 {
        lemma_placeholder_names_are_names(after_placeholder(s), i - 1);
    }
}

/// Whether a value is one that `lookup` gives for a name.
pub open spec fn is_answer<F: FnMut(&str) -> Option<String>>(
    lookup: F,
    name: Seq<char>,
    value: Option<Seq<char>>,
) -> bool {
    exists|key: &str, v: Option<String>|
        key@ == name && text::opt_text(v) == value && #[trigger] call_ensures(lookup, (key,), v)
}

/// Whether the values are those that `lookup` gives for the first names.
pub open spec fn begin_answers<F: FnMut(&str) -> Option<String>>(
    lookup: F,
    names: Seq<Seq<char>>,
    found: Seq<Option<Seq<char>>>,
) -> bool {
    &&& found.len() <= names.len()
    &&& forall|i: int| 0 <= i < found.len() ==> is_answer(lookup, names[i], #[trigger] found[i])
}

/// Whether the values are those that `lookup` gives for the names, up to the first name that
/// has none.
pub open spec fn are_answers<F: FnMut(&str) -> Option<String>>(
    lookup: F,
    names: Seq<Seq<char>>,
    found: Seq<Option<Seq<char>>>,
) -> bool {
    &&& begin_answers(lookup, names, found)
    &&& found.len() == names.len() || (found.len() > 0 && found.last() is None)
}

/// The view of a result that holds a text or an error text.
pub open spec fn text_result(r: Result<String, String>) -> Result<Seq<char>, Seq<char>> {
    match r {
        Ok(s) => Ok(s@),
        Err(e) => Err(e@),
    }
}

/// A template without placeholders is rendered as it is.
pub proof fn lemma_plain_text_stays(s: Seq<char>, found: Seq<Option<Seq<char>>>)
    requires
        forall|i: int| 0 <= i < s.len() ==> !at_placeholder(#[trigger] s.skip(i)),
    ensures
        rendered(s, found) == Ok::<Seq<char>, Seq<char>>(s),
    decreases s.len(),
{
    if s.len() > 0 {
        assert(s.skip(0) =~= s);
        assert forall|i: int| 0 <= i < s.len() - 1 implies !at_placeholder(
            #[trigger] s.drop_first().skip(i),
        ) by {
            assert(s.drop_first().skip(i) =~= s.skip(i + 1));
        }
        lemma_plain_text_stays(s.drop_first(), found);
        assert(seq![s[0]] + s.drop_first() =~= s);
    } else {
        assert(s =~= Seq::<char>::empty());
    }
}

/// Render a template by replacing `${NAME}` placeholders with values provided by `lookup`.
///
/// Supported placeholder syntax:
/// - `${NAME}` where `NAME` matches `[A-Za-z_][A-Za-z0-9_]*`.
///
/// Any placeholder with an unset variable results in an error. Only the names of placeholders are
/// looked up, from the left to the right.
pub fn render_env_template_with<F: FnMut(&str) -> Option<String>>(input: &str, lookup: F) -> (r: Result<
    String,
    String,
>)
    requires
        forall|key: &str|
            placeholder_names(input@).contains(key@) ==> #[trigger] call_requires(lookup, (key,)),
    ensures
        exists|found: Seq<Option<Seq<char>>>|
            are_answers(lookup, placeholder_names(input@), found) && text_result(r)
                == #[trigger] rendered(input@, found),
{
    let chars = text::to_chars(input);
    let mut look = lookup;
    let mut out = String::new();
    let ghost mut found: Seq<Option<Seq<char>>> = Seq::empty();
    let mut i: usize = 0;
    proof {
        assert(chars@.skip(0) =~= input@);
        assert forall|more: Seq<Option<Seq<char>>>| #[trigger]
            rendered(input@, found + more) == prepended(
                out@,
                rendered(chars@.skip(0), more),
            ) by {
            assert(found + more =~= more);
            lemma_prepend_nothing(rendered(input@, more));
            assert(out@ =~= Seq::<char>::empty());
        }
    }
    let ghost mut names: Seq<Seq<char>> = Seq::empty();
    assert(names + placeholder_names(input@) =~= placeholder_names(input@));
    while i < chars.len()
        invariant
            i <= chars@.len(),
            chars@ == input@,
            look == lookup,
            forall|key: &str|
                placeholder_names(input@).contains(key@) ==> #[trigger] call_requires(
                    lookup,
                    (key,),
                ),
            found.len() == names.len(),
            placeholder_names(input@) == names + placeholder_names(chars@.skip(i as int)),
            begin_answers(lookup, placeholder_names(input@), found),
            forall|more: Seq<Option<Seq<char>>>| #[trigger]
                rendered(input@, found + more) == prepended(
                    out@,
                    rendered(chars@.skip(i as int), more),
                ),
        decreases chars@.len() - i,
    {
        let ghost rest = chars@.skip(i as int);
        let ghost done = out@;
        let ghost earlier = found;
        proof {
            assert(rest.drop_first() =~= chars@.skip(i + 1));
            let none = Seq::<Option<Seq<char>>>::empty();
            assert(rendered(input@, found + none) == prepended(done, rendered(rest, none)));
            assert(found + none =~= found);
        }
        if chars[i] == '$' && i + 1 < chars.len() && chars[i + 1] == '{' {
            let end = text::find_char(&chars, '}', i + 2);
            proof {
                assert(rest.skip(2) =~= chars@.skip(i + 2));
                assert(at_placeholder(rest));
            }
            if end == chars.len() {
                return Err("unterminated placeholder".to_owned());
            }
            let name = text::from_range(&chars, i + 2, end);
            assert(name@ =~= placeholder_name(rest));
            match validate_env_name(name.as_str()) {
                Ok(()) => {},
                Err(e) => {
                    return Err(e);
                },
            }
            let key: &str = name.as_str();
            proof {
                let later = placeholder_names(after_placeholder(rest));
                assert(names + (seq![name@] + later) =~= names.push(name@) + later);
                assert(placeholder_names(input@)[names.len() as int] == name@);
            }
            let value = look(key);
            proof {
                let v = text::opt_text(value);
                let all = placeholder_names(input@);
                assert(call_ensures(lookup, (key,), value));
                assert(is_answer(lookup, name@, v));
                assert forall|j: int| 0 <= j < found.push(v).len() implies is_answer(
                    lookup,
                    all[j],
                    #[trigger] found.push(v)[j],
                ) by {
                    if j < found.len() {
                        assert(is_answer(lookup, all[j], found[j]));
                    }
                }
                found = earlier.push(v);
                names = names.push(name@);
                assert(begin_answers(lookup, all, found));
                assert(rendered(input@, earlier + seq![v]) == prepended(
                    done,
                    rendered(rest, seq![v]),
                ));
                assert(earlier + seq![v] =~= found);
            }
            match value {
                None => {
                    return Err(text::concat("missing environment variable: ", key));
                },
                Some(v) => {
                    out.append(v.as_str());
                    proof {
                        let tail = after_placeholder(rest);
                        assert(tail =~= chars@.skip(end + 1));
                        assert forall|more: Seq<Option<Seq<char>>>| #[trigger]
                            rendered(input@, found + more) == prepended(
                                out@,
                                rendered(chars@.skip(end + 1), more),
                            ) by {
                            let ahead = seq![Some(v@)] + more;
                            assert(found + more =~= earlier + ahead);
                            assert(ahead.drop_first() =~= more);
                            assert(rendered(input@, earlier + ahead) == prepended(
                                done,
                                rendered(rest, ahead),
                            ));
                            lemma_prepend_twice(done, v@, rendered(tail, more));
                        }
                    }
                },
            }
            i = end + 1;
        } else {
            out.push(chars[i]);
            proof {
                assert(!at_placeholder(rest));
                assert forall|more: Seq<Option<Seq<char>>>| #[trigger]
                    rendered(input@, found + more) == prepended(
                        out@,
                        rendered(chars@.skip(i + 1), more),
                    ) by {
                    assert(rendered(input@, found + more) == prepended(done, rendered(rest, more)));
                    lemma_prepend_twice(done, seq![rest[0]], rendered(chars@.skip(i + 1), more));
                    assert(done + seq![rest[0]] =~= out@);
                }
            }
            i = i + 1;
        }
    }
    proof {
        let none = Seq::<Option<Seq<char>>>::empty();
        assert(rendered(input@, found + none) == prepended(
            out@,
            rendered(chars@.skip(i as int), none),
        ));
        assert(found + none =~= found);
        assert(out@ + Seq::<char>::empty() =~= out@);
    }
    Ok(out)
}

proof fn lemma_prepend_nothing(r: Result<Seq<char>, Seq<char>>)
    ensures
        prepended(Seq::empty(), r) == r,
{
    if let Ok(s) = r {
        assert(Seq::<char>::empty() + s =~= s);
    }
}

proof fn lemma_prepend_twice(a: Seq<char>, b: Seq<char>, r: Result<Seq<char>, Seq<char>>)
    ensures
        prepended(a, prepended(b, r)) == prepended(a + b, r),
{
    if let Ok(s) = r {
        assert(a + (b + s) =~= (a + b) + s);
    }
}

} // verus!
