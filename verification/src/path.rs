//! Path templates: their syntax, and what it means that a path fits one.
use vstd::prelude::*;

use crate::text;

verus! {

/// What is wrong with a path template.
pub enum TemplateFault {
    /// It does not start with `/`.
    NoSlash,
    /// A `{` inside a parameter.
    Nested,
    /// A `}` outside of a parameter.
    Unmatched,
    /// A parameter without a name.
    EmptyName,
    /// A parameter without its `}`.
    Unclosed,
}

/// The first fault of the braces of a template; `open` is the number of characters of the
/// parameter name so far, inside a parameter.
pub open spec fn brace_fault(s: Seq<char>, open: Option<nat>) -> Option<TemplateFault>
    decreases s.len(),
{
    if s.len() == 0 {
        if open is Some {
            Some(TemplateFault::Unclosed)
        } else {
            None
        }
    } else if s[0] == '{' {
        if open is Some {
            Some(TemplateFault::Nested)
        } else {
            brace_fault(s.drop_first(), Some(0))
        }
    } else if s[0] == '}' {
        match open {
            None => Some(TemplateFault::Unmatched),
            Some(n) => if n == 0 {
                Some(TemplateFault::EmptyName)
            } else {
                brace_fault(s.drop_first(), None)
            },
        }
    } else {
        brace_fault(
            s.drop_first(),
            match open {
                Some(n) => Some(n + 1),
                None => None,
            },
        )
    }
}

/// The first fault of a path template.
pub open spec fn template_fault(s: Seq<char>) -> Option<TemplateFault> {
    if s.len() == 0 || s[0] != '/' {
        Some(TemplateFault::NoSlash)
    } else {
        brace_fault(s, None)
    }
}

/// What is said of a template with a fault.
pub open spec fn fault_text(fault: TemplateFault, path: Seq<char>) -> Seq<char> {
    let reason = match fault {
        TemplateFault::NoSlash => "path templates must start with '/': "@,
        TemplateFault::Nested => "nested '{' in path template: "@,
        TemplateFault::Unmatched => "unmatched '}' in path template: "@,
        TemplateFault::EmptyName => "empty '{}' param in path template: "@,
        TemplateFault::Unclosed => "unclosed '{' in path template: "@,
    };
    reason + path
}

/// Checks an OpenAPI path template.
///
/// The `{param}` syntax of OpenAPI is that of the matcher, so a template is handed on as it is.
pub fn openapi_path_to_matchit(path: &str) -> (r: Result<String, String>)
    ensures
        match template_fault(path@) {
            None => r matches Ok(p) && p@ == path@,
            Some(f) => r matches Err(e) && e@ == fault_text(f, path@),
        },
{
    let chars = text::to_chars(path);
    if chars.len() == 0 || chars[0] != '/' {
        return Err(text::concat("path templates must start with '/': ", path));
    }
    let mut in_param = false;
    let mut name_len: usize = 0;
    let mut i: usize = 0;
    assert(chars@.skip(0) =~= path@);
    while i < chars.len()
        invariant
            chars@ == path@,
            i <= chars@.len(),
            name_len <= i,
            template_fault(path@) == brace_fault(
                chars@.skip(i as int),
                if in_param {
                    Some(name_len as nat)
                } else {
                    None
                },
            ),
        decreases chars@.len() - i,
    {
        let c = chars[i];
        assert(chars@.skip(i as int)[0] == c);
        assert(chars@.skip(i as int).drop_first() =~= chars@.skip(i + 1));
        if c == '{' {
            if in_param {
                return Err(text::concat("nested '{' in path template: ", path));
            }
            in_param = true;
            name_len = 0;
        } else if c == '}' {
            if !in_param {
                return Err(text::concat("unmatched '}' in path template: ", path));
            }
            if name_len == 0 {
                return Err(text::concat("empty '{}' param in path template: ", path));
            }
            in_param = false;
        } else if in_param {
            name_len = name_len + 1;
        }
        i = i + 1;
    }
    if in_param {
        return Err(text::concat("unclosed '{' in path template: ", path));
    }
    Ok(path.to_owned())
}

/// No brace stands between two positions.
pub open spec fn no_braces(s: Seq<char>, from: int, to: int) -> bool {
    forall|k: int| from < k < to ==> s[k] != '{' && s[k] != '}'
}

/// The braces at two positions enclose a parameter name.
pub open spec fn is_param(s: Seq<char>, i: int, j: int) -> bool {
    &&& 0 <= i
    &&& i + 1 < j < s.len()
    &&& s[i] == '{'
    &&& s[j] == '}'
    &&& no_braces(s, i, j)
}

/// A brace that opens at a position belongs to a parameter with a name.
pub open spec fn closes(s: Seq<char>, i: int) -> bool {
    s[i] == '{' ==> exists|j: int| #[trigger] is_param(s, i, j)
}

/// A brace that closes at a position belongs to a parameter with a name.
pub open spec fn opens(s: Seq<char>, j: int) -> bool {
    s[j] == '}' ==> exists|i: int| #[trigger] is_param(s, i, j)
}

/// Every brace of a template belongs to a parameter with a name.
pub open spec fn braces_pair_up(s: Seq<char>) -> bool {
    &&& forall|i: int| 0 <= i < s.len() ==> #[trigger] closes(s, i)
    &&& forall|i: int| 0 <= i < s.len() ==> #[trigger] opens(s, i)
}

/// Where the braces of the rest of a template are in order, each of its braces pairs up; the
/// parameter that is open at `at` started at `start`.
proof fn lemma_braces_pair(s: Seq<char>, at: int, start: Option<int>)
    requires
        0 <= at <= s.len(),
        start matches Some(p) ==> 0 <= p < at && s[p] == '{' && no_braces(s, p, at),
        brace_fault(
            s.skip(at),
            match start {
                Some(p) => Some((at - p - 1) as nat),
                None => None,
            },
        ) is None,
    ensures
        start matches Some(p) ==> exists|j: int| #[trigger] is_param(s, p, j),
        forall|i: int| at <= i < s.len() ==> #[trigger] closes(s, i),
        forall|i: int| at <= i < s.len() ==> #[trigger] opens(s, i),
    decreases s.len() - at,
{
    let rest = s.skip(at);
    if at < s.len() {
        assert(rest[0] == s[at]);
        assert(rest.drop_first() =~= s.skip(at + 1));
        if s[at] == '{' {
            lemma_braces_pair(s, at + 1, Some(at));
        } else if s[at] == '}' {
            assert(is_param(s, start->0, at));
            lemma_braces_pair(s, at + 1, None);
        } else {
            lemma_braces_pair(s, at + 1, start);
        }
    }
}

/// Where every brace of a template pairs up, the scan finds no fault in the rest of it.
proof fn lemma_pair_braces(s: Seq<char>, at: int, start: Option<int>)
    requires
        0 <= at <= s.len(),
        start matches Some(p) ==> 0 <= p < at && s[p] == '{' && no_braces(s, p, at),
        start is None ==> forall|i: int, j: int| i < at && #[trigger] is_param(s, i, j) ==> j < at,
        braces_pair_up(s),
    ensures
        brace_fault(
            s.skip(at),
            match start {
                Some(p) => Some((at - p - 1) as nat),
                None => None,
            },
        ) is None,
    decreases s.len() - at,
{
    let rest = s.skip(at);
    if at == s.len() {
        if let Some(p) = start {
            assert(closes(s, p));
        }
    } else {
        assert(rest[0] == s[at]);
        assert(rest.drop_first() =~= s.skip(at + 1));
        if s[at] == '{' {
            if let Some(p) = start {
                assert(closes(s, p));
                let j = choose|j: int| is_param(s, p, j);
                assert(j > at);
            }
            lemma_pair_braces(s, at + 1, Some(at));
        } else if s[at] == '}' {
            assert(opens(s, at));
            let i = choose|i: int| is_param(s, i, at);
            if let Some(p) = start {
                assert(i == p);
            }
            assert forall|a: int, b: int| a < at + 1 && #[trigger] is_param(s, a, b) implies b < at
                + 1 by {
                if b > at {
                    assert(a < at < b);
                }
            }
            lemma_pair_braces(s, at + 1, None);
        } else {
            lemma_pair_braces(s, at + 1, start);
        }
    }
}

/// A template is accepted exactly where it starts with `/` and each of its braces belongs to
/// a parameter with a name.
pub proof fn lemma_accepted_templates(s: Seq<char>)
    ensures
        template_fault(s) is None <==> s.len() > 0 && s[0] == '/' && braces_pair_up(s),
{
    assert(s.skip(0) =~= s);
    if template_fault(s) is None {
        lemma_braces_pair(s, 0, None);
    }
    if s.len() > 0 && s[0] == '/' && braces_pair_up(s) {
        assert forall|i: int, j: int| i < 0 && #[trigger] is_param(s, i, j) implies j < 0 by {}
        lemma_pair_braces(s, 0, None);
    }
}

/// The number of parameters of a template; a parameter whose name begins with `*` takes the
/// rest of the path, and is not counted.
pub open spec fn param_count(s: Seq<char>) -> nat
    decreases s.len(),
{
    if s.len() == 0 {
        0
    } else if s[0] == '{' && !(s.len() > 1 && s[1] == '*') {
        1 + param_count(s.drop_first())
    } else {
        param_count(s.drop_first())
    }
}

/// Whether a path is what a template gives with the values of `params` put in the place of
/// its parameters, in order and under the names that the template gives them. A value holds
/// no `/`, but for that of a parameter whose name begins with `*`, which goes without the `*`.
pub open spec fn fits(
    template: Seq<char>,
    params: Seq<(Seq<char>, Seq<char>)>,
    path: Seq<char>,
) -> bool
    decreases template.len(),
{
    if template.len() == 0 {
        params.len() == 0 && path.len() == 0
    } else if template[0] == '{' {
        let end = text::piece_len(template, '}') as int;
        let takes_rest = template.len() > 1 && template[1] == '*';
        let (name, value) = params[0];
        &&& params.len() > 0
        &&& end < template.len()
        &&& name == template.subrange(if takes_rest { 2 } else { 1 }, end)
        &&& takes_rest || !value.contains('/')
        &&& value.len() <= path.len()
        &&& path.take(value.len() as int) == value
        &&& fits(template.skip(end + 1), params.drop_first(), path.skip(value.len() as int))
    } else {
        &&& path.len() > 0
        &&& path[0] == template[0]
        &&& fits(template.drop_first(), params, path.drop_first())
    }
}

/// A template without parameters fits no path but itself.
pub proof fn lemma_static_template_fits_itself(
    template: Seq<char>,
    params: Seq<(Seq<char>, Seq<char>)>,
    path: Seq<char>,
)
    requires
        !template.contains('{'),
    ensures
        fits(template, params, path) <==> params.len() == 0 && path == template,
    decreases template.len(),
{
    if template.len() > 0 {
        assert(template[0] != '{');
        assert forall|i: int| 0 <= i < template.len() - 1 implies template.drop_first()[i]
            != '{' by {
            assert(template[i + 1] != '{');
        }
        if path.len() > 0 {
            lemma_static_template_fits_itself(template.drop_first(), params, path.drop_first());
            if path[0] == template[0] && path.drop_first() == template.drop_first() {
                assert(path =~= seq![path[0]] + path.drop_first());
                assert(template =~= seq![template[0]] + template.drop_first());
            }
        }
    } else {
        assert(path.len() == 0 ==> path =~= template);
    }
}

} // verus!
