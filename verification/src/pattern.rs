//! Path templates such as `/pets/{id}`: the text that lists a path, and the
//! anchored pattern that recognises the URLs made from it.
//!
//! A placeholder is `{`, then any characters other than braces, then `}`. A
//! brace anywhere else makes the template malformed. In a pattern every
//! placeholder stands as the class `[[:alnum:]_-]+`: one or more letters,
//! digits, underscores or hyphens.

use crate::text::{chars_of, expand, lemma_expand_take, push_char};
use vstd::prelude::*;
use vstd::string::*;

verus! {

/// What stands for a placeholder in a pattern.
pub const PLACEHOLDER_CLASS: &'static str = "[[:alnum:]_-]+";

/// What ends a pattern: the anchor at the end of the text.
pub const END_ANCHOR: char = '$';

/// A path template with a brace that belongs to no placeholder.
#[derive(Clone, Copy, Debug, PartialEq, Eq, Structural)]
pub struct PathTemplateMalformed {}

/// Whether `c` is one of the two placeholder delimiters.
pub open spec fn is_brace(c: char) -> bool {
    c == '{' || c == '}'
}

/// The template without its braces; the names of the placeholders stay.
pub open spec fn display_of(template: Seq<char>) -> Seq<char> {
    template.filter(|c: char| !is_brace(c))
}

/// `head` before the text of `tail`, where there is one.
pub open spec fn prefixed(head: Seq<char>, tail: Option<Seq<char>>) -> Option<Seq<char>> {
    match tail {
        Some(text) => Some(head + text),
        None => None,
    }
}

/// The pattern for the rest of a template, read from the left: `inside`
/// says whether a placeholder is open where `rest` begins.
pub open spec fn pattern_tail(rest: Seq<char>, inside: bool) -> Option<Seq<char>>
    decreases rest.len(),
{
    if rest.len() == 0 {
        if inside {
            None
        } else {
            Some(seq![END_ANCHOR])
        }
    } else if inside {
        if rest[0] == '}' {
            pattern_tail(rest.skip(1), false)
        } else if rest[0] == '{' {
            None
        } else {
            pattern_tail(rest.skip(1), true)
        }
    } else {
        if rest[0] == '{' {
            prefixed(PLACEHOLDER_CLASS@, pattern_tail(rest.skip(1), true))
        } else if rest[0] == '}' {
            None
        } else {
            prefixed(seq![rest[0]], pattern_tail(rest.skip(1), false))
        }
    }
}

/// The match pattern of a template: each placeholder replaced by the class,
/// every other character kept, the end anchor last. `None` for a malformed
/// template.
pub open spec fn pattern_of(template: Seq<char>) -> Option<Seq<char>> {
    pattern_tail(template, false)
}

/// What one character becomes when colons are escaped.
pub open spec fn escaped_colon(c: char) -> Seq<char> {
    if c == ':' {
        seq!['\\', ':']
    } else {
        seq![c]
    }
}

/// The text with a backslash before each colon.
pub open spec fn colons_escaped(text: Seq<char>) -> Seq<char> {
    expand(text, |c: char| escaped_colon(c))
}

/// In a text with its colons escaped, each colon stands directly after a
/// backslash.
pub proof fn lemma_colons_are_guarded(text: Seq<char>)
    ensures
        forall|i: int|
            0 <= i < colons_escaped(text).len() && #[trigger] colons_escaped(text)[i] == ':' ==> i
                > 0 && colons_escaped(text)[i - 1] == '\\',
    decreases text.len(),
{
    if text.len() > 0 {
        let front = colons_escaped(text.drop_last());
        let whole = colons_escaped(text);
        lemma_colons_are_guarded(text.drop_last());
        assert(whole == front + escaped_colon(text.last()));
        assert forall|i: int| 0 <= i < whole.len() && #[trigger] whole[i] == ':' implies i > 0
            && whole[i - 1] == '\\' by {
            if i < front.len() {
                assert(whole[i] == front[i]);
                if i > 0 {
                    assert(whole[i - 1] == front[i - 1]);
                }
            } else {
                assert(whole[i] == escaped_colon(text.last())[i - front.len()]);
                if i > front.len() {
                    assert(whole[i - 1] == escaped_colon(text.last())[i - 1 - front.len()]);
                }
            }
        }
    }
}

/// A display form holds no brace.
pub proof fn lemma_display_has_no_brace(template: Seq<char>)
    ensures
        forall|i: int| 0 <= i < display_of(template).len() ==> !is_brace(display_of(template)[i]),
{
    let keep = |c: char| !is_brace(c);
    assert forall|i: int| 0 <= i < display_of(template).len() implies !is_brace(
        display_of(template)[i],
    ) by {
        template.lemma_filter_pred(keep, i);
    }
}

/// A template without braces is its own display form, and its pattern is the
/// template followed by the end anchor.
pub proof fn lemma_plain_template(template: Seq<char>)
    requires
        forall|i: int| 0 <= i < template.len() ==> !is_brace(template[i]),
    ensures
        display_of(template) == template,
        pattern_of(template) == Some(template.push(END_ANCHOR)),
    decreases template.len(),
{
    let keep = |c: char| !is_brace(c);
    reveal(Seq::filter);
    if template.len() == 0 {
        assert(template.push(END_ANCHOR) =~= seq![END_ANCHOR]);
    } else {
        let front = template.drop_last();
        lemma_plain_template(front);
        assert(template.filter(keep) =~= template);
        let rest = template.skip(1);
        lemma_plain_template(rest);
        assert(!is_brace(template[0]));
        assert(seq![template[0]] + rest.push(END_ANCHOR) =~= template.push(END_ANCHOR));
    }
}

/// A pattern is read off a template piece by piece: text without braces is
/// kept, and a placeholder that follows it becomes the class, whatever its
/// name is.
pub proof fn lemma_pattern_of_placeholder(
    before: Seq<char>,
    name: Seq<char>,
    after: Seq<char>,
)
    requires
        forall|i: int| 0 <= i < before.len() ==> !is_brace(before[i]),
        forall|i: int| 0 <= i < name.len() ==> !is_brace(name[i]),
    ensures
        pattern_of(before + seq!['{'] + name + seq!['}'] + after) == prefixed(
            before + PLACEHOLDER_CLASS@,
            pattern_of(after),
        ),
    decreases before.len(),
{
    let whole = before + seq!['{'] + name + seq!['}'] + after;
    if before.len() == 0 {
        assert(whole.skip(1) =~= name + seq!['}'] + after);
        lemma_inside_placeholder(name, after);
        assert(before + PLACEHOLDER_CLASS@ =~= PLACEHOLDER_CLASS@);
    } else {
        let shorter = before.skip(1);
        assert(whole.skip(1) =~= shorter + seq!['{'] + name + seq!['}'] + after);
        assert(whole[0] == before[0]);
        assert(!is_brace(before[0]));
        assert forall|i: int| 0 <= i < shorter.len() implies !is_brace(shorter[i]) by {
            assert(shorter[i] == before[i + 1]);
        }
        lemma_pattern_of_placeholder(shorter, name, after);
        match pattern_of(after) {
            Some(text) => {
                assert(seq![before[0]] + (shorter + PLACEHOLDER_CLASS@ + text) =~= before
                    + PLACEHOLDER_CLASS@ + text);
            },
            None => {},
        }
    }
}

/// A pattern holds no brace, and the end anchor is its last character.
pub proof fn lemma_pattern_shape(template: Seq<char>)
    ensures
        pattern_of(template) matches Some(pattern) ==> {
            &&& pattern.len() > 0
            &&& pattern.last() == END_ANCHOR
            &&& forall|i: int| 0 <= i < pattern.len() ==> !is_brace(pattern[i])
        },
{
    lemma_tail_shape(template, false);
}

/// What [`lemma_pattern_shape`] says, of the pattern for the rest of a
/// template.
proof fn lemma_tail_shape(rest: Seq<char>, inside: bool)
    ensures
        pattern_tail(rest, inside) matches Some(pattern) ==> {
            &&& pattern.len() > 0
            &&& pattern.last() == END_ANCHOR
            &&& forall|i: int| 0 <= i < pattern.len() ==> !is_brace(pattern[i])
        },
    decreases rest.len(),
{
    reveal_strlit("[[:alnum:]_-]+");
    if rest.len() > 0 {
        lemma_tail_shape(rest.skip(1), true);
        lemma_tail_shape(rest.skip(1), false);
    }
}

/// Inside a placeholder, the name is passed over up to the closing brace.
proof fn lemma_inside_placeholder(name: Seq<char>, after: Seq<char>)
    requires
        forall|i: int| 0 <= i < name.len() ==> !is_brace(name[i]),
    ensures
        pattern_tail(name + seq!['}'] + after, true) == pattern_tail(after, false),
    decreases name.len(),
{
    let whole = name + seq!['}'] + after;
    if name.len() == 0 {
        assert(whole.skip(1) =~= after);
    } else {
        let shorter = name.skip(1);
        assert(whole.skip(1) =~= shorter + seq!['}'] + after);
        assert(whole[0] == name[0]);
        assert(!is_brace(name[0]));
        assert forall|i: int| 0 <= i < shorter.len() implies !is_brace(shorter[i]) by {
            assert(shorter[i] == name[i + 1]);
        }
        lemma_inside_placeholder(shorter, after);
    }
}

/// The template without its braces, for listing the path as a URL.
pub fn display_form(template: &str) -> (r: String)
    ensures
        r@ == display_of(template@),
{
    let chars = chars_of(template);
    let ghost keep = |c: char| !is_brace(c);
    let mut out = String::new();
    let mut i: usize = 0;
    assert(chars@.take(0) =~= Seq::empty());
    assert(chars@.take(0).filter(keep) =~= Seq::empty()) by {
        reveal(Seq::filter);
    }
    while i < chars.len()
        invariant
            i <= chars.len(),
            keep == (|c: char| !is_brace(c)),
            out@ == chars@.take(i as int).filter(keep),
        decreases chars.len() - i,
    {
        let c = chars[i];
        proof {
            assert(chars@.take(i + 1) =~= chars@.take(i as int).push(c));
            chars@.take(i as int).lemma_filter_push(c, keep);
        }
        if c != '{' && c != '}' {
            push_char(&mut out, c);
        }
        i += 1;
    }
    assert(chars@.take(chars.len() as int) =~= chars@);
    out
}

/// The match pattern of a template, or the failure that a malformed
/// template is.
pub fn match_pattern(template: &str) -> (r: Result<String, PathTemplateMalformed>)
    ensures
        match r {
            Ok(pattern) => pattern_of(template@) == Some(pattern@),
            Err(_) => pattern_of(template@) is None,
        },
{
    let chars = chars_of(template);
    let mut out = String::new();
    let mut inside = false;
    let mut i: usize = 0;
    assert(chars@.skip(0) =~= chars@);
    assert(prefixed(out@, pattern_tail(chars@, false)) == pattern_tail(chars@, false)) by {
        match pattern_tail(chars@, false) {
            Some(text) => {
                assert(out@ + text =~= text);
            },
            None => {},
        }
    }
    while i < chars.len()
        invariant
            i <= chars.len(),
            chars@ == template@,
            pattern_of(template@) == prefixed(out@, pattern_tail(chars@.skip(i as int), inside)),
        decreases chars.len() - i,
    {
        let c = chars[i];
        let ghost rest = chars@.skip(i as int);
        let ghost before = out@;
        assert(rest.len() > 0 && rest[0] == c);
        assert(rest.skip(1) =~= chars@.skip(i + 1));
        if inside {
            if c == '}' {
                inside = false;
            } else if c == '{' {
                return Err(PathTemplateMalformed {  });
            }
        } else {
            if c == '{' {
                out.append(PLACEHOLDER_CLASS);
                inside = true;
                proof {
                    lemma_prefixed_twice(
                        before,
                        PLACEHOLDER_CLASS@,
                        pattern_tail(rest.skip(1), true),
                    );
                }
            } else if c == '}' {
                return Err(PathTemplateMalformed {  });
            } else {
                push_char(&mut out, c);
                proof {
                    lemma_prefixed_twice(before, seq![c], pattern_tail(rest.skip(1), false));
                    assert(before + seq![c] =~= before.push(c));
                }
            }
        }
        i += 1;
    }
    assert(chars@.skip(chars.len() as int).len() == 0);
    if inside {
        return Err(PathTemplateMalformed {  });
    }
    let ghost before = out@;
    push_char(&mut out, END_ANCHOR);
    assert(before + seq![END_ANCHOR] =~= before.push(END_ANCHOR));
    Ok(out)
}

/// Putting two texts before a tail, one after the other, puts their
/// concatenation before it.
proof fn lemma_prefixed_twice(first: Seq<char>, second: Seq<char>, tail: Option<Seq<char>>)
    ensures
        prefixed(first, prefixed(second, tail)) == prefixed(first + second, tail),
{
    match tail {
        Some(text) => {
            assert(first + (second + text) =~= first + second + text);
        },
        None => {},
    }
}

/// The text with a backslash before each colon.
pub fn escape_colons(text: &str) -> (r: String)
    ensures
        r@ == colons_escaped(text@),
{
    let chars = chars_of(text);
    let ghost f = |c: char| escaped_colon(c);
    let mut out = String::new();
    let mut i: usize = 0;
    assert(chars@.take(0) =~= Seq::empty());
    while i < chars.len()
        invariant
            i <= chars.len(),
            f == (|c: char| escaped_colon(c)),
            out@ == expand(chars@.take(i as int), f),
        decreases chars.len() - i,
    {
        let c = chars[i];
        let ghost before = out@;
        proof {
            lemma_expand_take(chars@, i as int, f);
        }
        if c == ':' {
            push_char(&mut out, '\\');
        }
        push_char(&mut out, c);
        assert(out@ =~= before + escaped_colon(c));
        i += 1;
    }
    assert(chars@.take(chars.len() as int) =~= chars@);
    out
}

} // verus!
