//! Reading the JSON object that an assistant's answer holds, closing the
//! brackets that a cut-off answer left open.
use vstd::prelude::*;
use crate::level::chars_of;

verus! {

broadcast use vstd::string::group_string_axioms;

#[verifier::external_type_specification]
#[verifier::external_body]
pub struct ExValue(serde_json::Value);

/// Whether serde_json reads a text as one JSON value: optional surrounding
/// whitespace, at most 128 levels of nesting, numbers within range.
pub uninterp spec fn is_json_text(s: Seq<char>) -> bool;

/// Relies on serde_json::from_str::<serde_json::Value>: it succeeds exactly
/// when the text is one JSON value, which depends on the text alone.
#[verifier::external_body]
fn json_value(s: &str) -> (r: Option<serde_json::Value>)
    ensures
        r is Some <==> is_json_text(s@),
{
    serde_json::from_str::<serde_json::Value>(s).ok()
}

/// The scan of a text from position `i`: whether it is inside a string,
/// whether the last character there was an unfinished escape, and the
/// closers that the open brackets await, the innermost last. The result is
/// the closers still awaited at the end, or none when a closer does not
/// match.
pub open spec fn open_closers(s: Seq<char>, i: int, inside: bool, escaped: bool, stack: Seq<char>) -> Option<
    Seq<char>,
>
    decreases s.len() - i,
{
    if i >= s.len() {
        Some(stack)
    } else {
        let c = s[i];
        if c == '"' && !escaped {
            open_closers(s, i + 1, !inside, escaped, stack)
        } else if c == '{' && !inside {
            open_closers(s, i + 1, inside, escaped, stack.push('}'))
        } else if c == '[' && !inside {
            open_closers(s, i + 1, inside, escaped, stack.push(']'))
        } else if (c == '}' || c == ']') && !inside {
            if stack.len() > 0 && stack.last() == c {
                open_closers(s, i + 1, inside, escaped, stack.drop_last())
            } else {
                None
            }
        } else if c == '\\' && inside {
            open_closers(s, i + 1, inside, !escaped, stack)
        } else {
            open_closers(s, i + 1, inside, false, stack)
        }
    }
}

/// `stack` from its last element to its first.
pub open spec fn reversed(stack: Seq<char>) -> Seq<char>
    decreases stack.len(),
{
    if stack.len() == 0 {
        Seq::empty()
    } else {
        seq![stack.last()] + reversed(stack.drop_last())
    }
}

/// The text with the brackets it left open closed, innermost first; none
/// when a closing bracket outside a string does not match.
pub open spec fn completed(s: Seq<char>) -> Option<Seq<char>> {
    match open_closers(s, 0, false, false, Seq::empty()) {
        Some(stack) => Some(s + reversed(stack)),
        None => None,
    }
}

/// The text with its open brackets closed (see [`completed`]).
pub fn complete_brackets(s: &str) -> (r: Option<String>)
    ensures
        match completed(s@) {
            Some(t) => r matches Some(text) && text@ == t,
            None => r is None,
        },
{
    let cs = chars_of(s);
    let mut stack: Vec<char> = Vec::new();
    let mut inside = false;
    let mut escaped = false;
    let mut i: usize = 0;
    while i < cs.len()
        invariant
            cs@ == s@,
            i <= cs@.len(),
            forall|j: int| 0 <= j < stack@.len() ==> #[trigger] stack@[j] == '}' || stack@[j] == ']',
            open_closers(s@, i as int, inside, escaped, stack@) == open_closers(
                s@,
                0,
                false,
                false,
                Seq::empty(),
            ),
        decreases cs@.len() - i,
    {
        let c = cs[i];
        if c == '"' && !escaped {
            inside = !inside;
        } else if c == '{' && !inside {
            stack.push('}');
        } else if c == '[' && !inside {
            stack.push(']');
        } else if (c == '}' || c == ']') && !inside {
            let n = stack.len();
            if n > 0 && stack[n - 1] == c {
                let ghost st = stack@;
                stack.pop();
                assert(stack@ =~= st.drop_last());
            } else {
                return None;
            }
        } else if c == '\\' && inside {
            escaped = !escaped;
        } else {
            escaped = false;
        }
        i = i + 1;
    }
    let mut text = String::from_str(s);
    let mut k = stack.len();
    proof {
        reveal_strlit("}");
        reveal_strlit("]");
    }
    assert(stack@.subrange(0, k as int) =~= stack@);
    while k > 0
        invariant
            k <= stack@.len(),
            "}"@ == seq!['}'],
            "]"@ == seq![']'],
            text@ + reversed(stack@.subrange(0, k as int)) == s@ + reversed(stack@),
            forall|j: int| 0 <= j < stack@.len() ==> #[trigger] stack@[j] == '}' || stack@[j] == ']',
        decreases k,
    {
        let c = stack[k - 1];
        let ghost before = text@;
        if c == '}' {
            text.append("}");
        } else {
            text.append("]");
        }
        assert(stack@.subrange(0, k as int).drop_last() =~= stack@.subrange(0, k - 1));
        assert(text@ =~= before + seq![c]);
        k = k - 1;
    }
    assert(stack@.subrange(0, 0) =~= Seq::<char>::empty());
    Some(text)
}

/// Whether the text, once its open brackets are closed, is one JSON value.
pub open spec fn repairs_to_json(s: Seq<char>) -> bool {
    match completed(s) {
        Some(t) => is_json_text(t),
        None => false,
    }
}

/// The JSON value in a text; unless `strict`, a text that is not one is
/// read again with its open brackets closed.
pub fn parse_partial_json(s: &str, strict: bool) -> (r: Option<serde_json::Value>)
    ensures
        r is Some <==> (is_json_text(s@) || (!strict && repairs_to_json(s@))),
{
    match json_value(s) {
        Some(v) => {
            return Some(v);
        },
        None => {},
    }
    if strict {
        return None;
    }
    match complete_brackets(s) {
        Some(text) => json_value(text.as_str()),
        None => None,
    }
}

} // verus!
