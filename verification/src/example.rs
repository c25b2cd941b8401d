//! Request-body examples: finding the examples of an operation, and escaping
//! their JSON text for a single-quoted word of the completion script.
//!
//! Four characters are escaped, each on its own and in one pass: a single
//! quote, a colon and a dollar sign get a backslash before them, and a line
//! break becomes a backslash and the letter `n`.

use crate::document::{
    store_view, ComponentStore, ComponentStoreView, Example, MediaType, MediaTypeView,
    Reference, ReferenceView, RequestBody, RequestBodyView,
};
use crate::json::{canonical_text, json_text};
use crate::named_map::lookup;
use crate::resolve::{collection_of, resolved, ComponentKind};
use crate::text::{chars_of, expand, lemma_expand_concat, lemma_expand_take, push_char};
use vstd::prelude::*;
use vstd::string::*;

verus! {

/// The media type whose examples are offered.
pub const JSON_MEDIA_TYPE: &'static str = "application/json";

/// The label of an example that a media type gives in place.
pub const INLINE_LABEL: &'static str = "Request Body Example";

/// Whether `c` is one of the four characters that are escaped.
pub open spec fn needs_escape(c: char) -> bool {
    c == '\'' || c == ':' || c == '$' || c == '\n'
}

/// What one character becomes when a text is escaped.
pub open spec fn escaped_char(c: char) -> Seq<char> {
    if c == '\n' {
        seq!['\\', 'n']
    } else if needs_escape(c) {
        seq!['\\', c]
    } else {
        seq![c]
    }
}

/// The escaped form of a text.
pub open spec fn escaped(text: Seq<char>) -> Seq<char> {
    expand(text, |c: char| escaped_char(c))
}

/// Whether a backslash followed by `c` is an escape.
pub open spec fn is_escape_code(c: char) -> bool {
    c == '\'' || c == ':' || c == '$' || c == 'n'
}

/// The character that a backslash followed by `c` stands for.
pub open spec fn escape_value(c: char) -> char {
    if c == 'n' {
        '\n'
    } else {
        c
    }
}

/// What a reader that knows the four escapes makes of a text: each escape
/// becomes the character it stands for, and every other character,
/// a backslash that begins no escape too, is itself.
pub open spec fn unescaped(text: Seq<char>) -> Seq<char>
    decreases text.len(),
{
    if text.len() == 0 {
        text
    } else if text.len() >= 2 && text[0] == '\\' && is_escape_code(text[1]) {
        seq![escape_value(text[1])] + unescaped(text.skip(2))
    } else {
        seq![text[0]] + unescaped(text.skip(1))
    }
}

/// Whether a backslash in `text` is followed by the letter `n`.
pub open spec fn has_backslash_n(text: Seq<char>) -> bool {
    exists|i: int| 0 <= i && i + 1 < text.len() && text[i] == '\\' && #[trigger] text[i + 1] == 'n'
}

/// An escaped text holds no line break, and each single quote, colon and
/// dollar sign in it stands directly after a backslash.
pub proof fn lemma_escaped_is_guarded(text: Seq<char>)
    ensures
        forall|i: int|
            0 <= i < escaped(text).len() ==> {
                &&& escaped(text)[i] != '\n'
                &&& needs_escape(#[trigger] escaped(text)[i]) ==> i > 0 && escaped(text)[i - 1]
                    == '\\'
            },
    decreases text.len(),
{
    if text.len() > 0 {
        let front = escaped(text.drop_last());
        lemma_escaped_is_guarded(text.drop_last());
        assert(escaped(text) == front + escaped_char(text.last()));
        assert forall|i: int| 0 <= i < escaped(text).len() implies {
            &&& escaped(text)[i] != '\n'
            &&& needs_escape(#[trigger] escaped(text)[i]) ==> i > 0 && escaped(text)[i - 1]
                == '\\'
        } by {
            if i < front.len() {
                assert(escaped(text)[i] == front[i]);
                if i > 0 {
                    assert(escaped(text)[i - 1] == front[i - 1]);
                }
            } else {
                assert(escaped(text)[i] == escaped_char(text.last())[i - front.len()]);
                if i > front.len() {
                    assert(escaped(text)[i - 1] == escaped_char(text.last())[i - 1 - front.len()]);
                }
            }
        }
    }
}

/// The escaped form of a text, read from its first character.
pub proof fn lemma_escaped_front(text: Seq<char>)
    requires
        text.len() > 0,
    ensures
        escaped(text) == escaped_char(text[0]) + escaped(text.skip(1)),
{
    let f = |c: char| escaped_char(c);
    let head = seq![text[0]];
    assert(text =~= head + text.skip(1));
    lemma_expand_concat(head, text.skip(1), f);
    assert(head.drop_last() =~= Seq::<char>::empty());
    assert(expand(head, f) =~= escaped_char(text[0])) by {
        assert(expand(head.drop_last(), f) =~= Seq::<char>::empty());
    }
}

/// Reading an escaped text back gives the text, as long as no backslash of
/// the text is followed by the letter `n`: those two characters are already
/// the escape of a line break.
pub proof fn lemma_escape_round_trip(text: Seq<char>)
    requires
        !has_backslash_n(text),
    ensures
        unescaped(escaped(text)) == text,
    decreases text.len(),
{
    let f = |c: char| escaped_char(c);
    if text.len() == 0 {
        assert(escaped(text) =~= Seq::<char>::empty());
    } else {
        let c = text[0];
        let rest = text.skip(1);
        lemma_escaped_front(text);
        assert(!has_backslash_n(rest)) by {
            if has_backslash_n(rest) {
                let i = choose|i: int|
                    0 <= i && i + 1 < rest.len() && rest[i] == '\\' && #[trigger] rest[i + 1]
                        == 'n';
                assert(text[i + 1] == '\\' && text[i + 1 + 1] == 'n');
            }
        }
        lemma_escape_round_trip(rest);
        let tail = escaped(rest);
        let whole = escaped(text);
        if needs_escape(c) {
            assert(whole.len() >= 2 && whole[0] == '\\' && is_escape_code(whole[1]));
            assert(escape_value(whole[1]) == c);
            assert(whole.skip(2) =~= tail);
            assert(seq![c] + rest =~= text);
        } else {
            assert(whole[0] == c);
            assert(whole.skip(1) =~= tail);
            if c == '\\' && rest.len() > 0 {
                lemma_escaped_front(rest);
                assert(whole[1] == escaped_char(rest[0])[0]);
                if rest[0] == 'n' {
                    assert(text[0int] == '\\' && text[0int + 1] == 'n');
                }
                assert(!is_escape_code(whole[1]));
            }
            if c == '\\' && rest.len() == 0 {
                assert(tail =~= Seq::<char>::empty());
                assert(whole.len() == 1);
            }
            assert(seq![c] + rest =~= text);
        }
    }
}

/// A text in which a backslash is followed by the letter `n` does not come
/// back from its escaped form: the round trip holds of no other text.
pub proof fn lemma_escape_round_trip_fails(text: Seq<char>)
    requires
        has_backslash_n(text),
    ensures
        unescaped(escaped(text)) != text,
    decreases text.len(),
{
    let i = choose|i: int|
        0 <= i && i + 1 < text.len() && text[i] == '\\' && #[trigger] text[i + 1] == 'n';
    let c = text[0];
    let rest = text.skip(1);
    lemma_escaped_front(text);
    lemma_escaped_front(rest);
    let tail = escaped(rest);
    let whole = escaped(text);
    if c == '\\' && rest[0] == 'n' {
        assert(whole =~= seq!['\\', 'n'] + escaped(rest.skip(1)));
        assert(whole.len() >= 2 && whole[0] == '\\' && is_escape_code(whole[1]));
        assert(unescaped(whole)[0] == '\n');
    } else {
        assert(has_backslash_n(rest)) by {
            assert(rest[i - 1] == '\\' && rest[i - 1 + 1] == 'n');
        }
        lemma_escape_round_trip_fails(rest);
        if needs_escape(c) {
            assert(whole.len() >= 2 && whole[0] == '\\' && is_escape_code(whole[1]));
            assert(whole.skip(2) =~= tail);
            assert(unescaped(whole).skip(1) =~= unescaped(tail));
        } else {
            assert(whole[0] == c);
            assert(whole.skip(1) =~= tail);
            if c == '\\' {
                assert(whole[1] == escaped_char(rest[0])[0]);
                assert(!is_escape_code(whole[1]));
            }
            assert(unescaped(whole).skip(1) =~= unescaped(tail));
        }
    }
}

/// The escaped form of a text.
pub fn escape_example(text: &str) -> (r: String)
    ensures
        r@ == escaped(text@),
{
    let chars = chars_of(text);
    let ghost f = |c: char| escaped_char(c);
    let mut out = String::new();
    let mut i: usize = 0;
    assert(chars@.take(0) =~= Seq::empty());
    while i < chars.len()
        invariant
            i <= chars.len(),
            f == (|c: char| escaped_char(c)),
            out@ == expand(chars@.take(i as int), f),
        decreases chars.len() - i,
    {
        let c = chars[i];
        let ghost before = out@;
        proof {
            lemma_expand_take(chars@, i as int, f);
        }
        if c == '\n' {
            push_char(&mut out, '\\');
            push_char(&mut out, 'n');
        } else if c == '\'' || c == ':' || c == '$' {
            push_char(&mut out, '\\');
            push_char(&mut out, c);
        } else {
            push_char(&mut out, c);
        }
        assert(out@ =~= before + escaped_char(c));
        i += 1;
    }
    assert(chars@.take(chars.len() as int) =~= chars@);
    out
}

/// The escaped JSON text of an example value. `None` where there is no
/// value or it cannot be written.
pub open spec fn example_text(value: Option<serde_json::Value>) -> Option<Seq<char>> {
    match value {
        Some(v) => match json_text(v) {
            Some(text) => Some(escaped(text)),
            None => None,
        },
        None => None,
    }
}

/// What a named example contributes: its name and its escaped text. `None`
/// where the example cannot be resolved or has no text.
pub open spec fn named_pair(
    entry: (Seq<char>, ReferenceView<Example>),
    components: Option<ComponentStoreView>,
) -> Option<(Seq<char>, Seq<char>)> {
    match resolved(entry.1, ComponentKind::Example, collection_of::<Example>(components)) {
        Ok(example) => match example_text(example.value) {
            Some(text) => Some((entry.0, text)),
            None => None,
        },
        Err(_) => None,
    }
}

/// The examples of one media type, each as its label and escaped text: the
/// example given in place if there is one, else the named examples in the
/// order of the document, without those that contribute nothing.
pub open spec fn media_examples(
    media: MediaTypeView,
    components: Option<ComponentStoreView>,
) -> Seq<(Seq<char>, Seq<char>)> {
    match media.example {
        Some(value) => match example_text(Some(value)) {
            Some(text) => seq![(INLINE_LABEL@, text)],
            None => Seq::empty(),
        },
        None => media.examples.filter_map(
            |entry: (Seq<char>, ReferenceView<Example>)| named_pair(entry, components),
        ),
    }
}

/// The examples of a request body: those of its JSON content. None where
/// there is no body, the body cannot be resolved, or it has no JSON content.
pub open spec fn body_examples(
    body: Option<ReferenceView<RequestBodyView>>,
    components: Option<ComponentStoreView>,
) -> Seq<(Seq<char>, Seq<char>)> {
    match body {
        None => Seq::empty(),
        Some(reference) => match resolved(
            reference,
            ComponentKind::RequestBody,
            collection_of::<RequestBody>(components),
        ) {
            Err(_) => Seq::empty(),
            Ok(found) => match lookup(found.content, JSON_MEDIA_TYPE@) {
                None => Seq::empty(),
                Some(media) => media_examples(media, components),
            },
        },
    }
}

/// The model of a list of labelled texts.
pub open spec fn pair_views(pairs: Seq<(String, String)>) -> Seq<(Seq<char>, Seq<char>)> {
    pairs.map_values(|p: (String, String)| (p.0@, p.1@))
}

/// A named example that cannot be resolved, or has no text, contributes
/// nothing, and takes nothing away from the examples around it.
pub proof fn lemma_failed_example_is_skipped(
    before: Seq<(Seq<char>, ReferenceView<Example>)>,
    entry: (Seq<char>, ReferenceView<Example>),
    after: Seq<(Seq<char>, ReferenceView<Example>)>,
    components: Option<ComponentStoreView>,
)
    requires
        named_pair(entry, components) is None,
    ensures
        (before + seq![entry] + after).filter_map(
            |e: (Seq<char>, ReferenceView<Example>)| named_pair(e, components),
        ) == (before + after).filter_map(
            |e: (Seq<char>, ReferenceView<Example>)| named_pair(e, components),
        ),
    decreases after.len(),
{
    let f = |e: (Seq<char>, ReferenceView<Example>)| named_pair(e, components);
    if after.len() == 0 {
        assert(before + seq![entry] + after =~= before.push(entry));
        assert(before.push(entry).drop_last() =~= before);
        assert(before + after =~= before);
    } else {
        let whole = before + seq![entry] + after;
        let without = before + after;
        lemma_failed_example_is_skipped(before, entry, after.drop_last(), components);
        assert(whole.drop_last() =~= before + seq![entry] + after.drop_last());
        assert(without.drop_last() =~= before + after.drop_last());
        assert(whole.last() == after.last());
        assert(without.last() == after.last());
    }
}

/// The escaped JSON text of a value, where it can be written.
fn escaped_json(value: &serde_json::Value) -> (r: Option<String>)
    ensures
        match r {
            Some(text) => example_text(Some(*value)) == Some(text@),
            None => example_text(Some(*value)) is None,
        },
{
    match canonical_text(value) {
        Some(text) => Some(escape_example(text.as_str())),
        None => None,
    }
}

/// The examples of one media type, each as its label and escaped text.
pub fn media_type_examples(media: &MediaType, components: &Option<ComponentStore>) -> (pairs: Vec<
    (String, String),
>)
    ensures
        pair_views(pairs@) == media_examples(media@, store_view(*components)),
{
    let mut pairs: Vec<(String, String)> = Vec::new();
    assert(pair_views(pairs@) =~= Seq::empty());
    match &media.example {
        Some(value) => {
            match escaped_json(value) {
                Some(text) => {
                    let label = INLINE_LABEL.to_owned();
                    pairs.push((label, text));
                    assert(pair_views(pairs@) =~= seq![(INLINE_LABEL@, text@)]);
                },
                None => {},
            }
        },
        None => {
            let ghost named = media@.examples;
            let ghost f = |e: (Seq<char>, ReferenceView<Example>)|
                named_pair(e, store_view(*components));
            let n = media.examples.len();
            let mut i: usize = 0;
            assert(named.take(0) =~= Seq::empty());
            while i < n
                invariant
                    i <= n,
                    n == named.len(),
                    named == media.examples@,
                    f == (|e: (Seq<char>, ReferenceView<Example>)|
                        named_pair(e, store_view(*components))),
                    pair_views(pairs@) == named.take(i as int).filter_map(f),
                decreases n - i,
            {
                let name = media.examples.name_at(i);
                let reference = media.examples.value_at(i);
                let ghost before = pair_views(pairs@);
                proof {
                    named.lemma_filter_map_take_succ(f, i as int);
                    assert(named[i as int] == (name@, reference@));
                }
                match reference.item(components) {
                    Ok(example) => {
                        match &example.value {
                            Some(value) => {
                                match escaped_json(value) {
                                    Some(text) => {
                                        let label = name.to_owned();
                                        pairs.push((label, text));
                                        assert(pair_views(pairs@) =~= before + seq![
                                            (name@, text@),
                                        ]);
                                    },
                                    None => {},
                                }
                            },
                            None => {},
                        }
                    },
                    Err(_) => {},
                }
                assert(pair_views(pairs@) =~= before + (match f(named[i as int]) {
                    Some(pair) => seq![pair],
                    None => Seq::empty(),
                }));
                i += 1;
            }
            assert(named.take(n as int) =~= named);
        },
    }
    pairs
}

/// The examples of an operation's request body, each as its label and
/// escaped text: those of its JSON content, in the order of the document.
pub fn request_body_examples(
    body: &Option<Reference<RequestBody>>,
    components: &Option<ComponentStore>,
) -> (pairs: Vec<(String, String)>)
    ensures
        pair_views(pairs@) == body_examples(
            match *body {
                Some(reference) => Some(reference@),
                None => None,
            },
            store_view(*components),
        ),
{
    let none: Vec<(String, String)> = Vec::new();
    assert(pair_views(none@) =~= Seq::empty());
    match body {
        None => none,
        Some(reference) => match reference.item(components) {
            Err(_) => none,
            Ok(found) => match found.content.get(JSON_MEDIA_TYPE) {
                None => none,
                Some(media) => media_type_examples(media, components),
            },
        },
    }
}

} // verus!
