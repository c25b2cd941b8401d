//! The completion script: a zsh function for `curl` that offers the URLs of
//! the documented paths, the query parameters of the operation being typed,
//! and example request bodies for it.
//!
//! The script is a fixed frame with three lists set into it. The URL list
//! has one word for each path. The two other lists hold one conditional
//! block for each operation that has something to offer; a block applies
//! when the URL on the command line matches the operation's pattern and
//! the method on it is the operation's.

use crate::document::{
    all_entries, entry_views, store_view, ComponentStore, ComponentStoreView, Document,
    DocumentView, Entry, EntryView, Method, Parameter, PathItem, PathItemView,
};
use crate::example::{body_examples, pair_views, request_body_examples};
use crate::named_map::NamedMap;
use crate::parameters::{parameter_index, parameter_map, query_names, query_names_of};
use crate::pattern::{
    colons_escaped, display_form, display_of, escape_colons, match_pattern, pattern_of,
};
use crate::resolve::{
    collection_of, has_pointer, lemma_components_absent, ComponentKind, ResolveError,
    ResolveErrorView,
};
use crate::text::{join_lines, join_with, texts};
use crate::weburl::{join_text, joined_text, url_without_query, without_query};
use vstd::prelude::*;
use vstd::string::*;

verus! {

/// The frame of the script up to the list of URLs.
pub const SCRIPT_HEAD: &'static str = r#"#
autoload -U is-at-least
autoload -U compinit
compinit

_custom_curl_env() {
    typeset -A opt_args
    typeset -a _arguments_options
    local ret=1

    if is-at-least 5.2; then
        _arguments_options=(-s -S -C)
    else
        _arguments_options=(-s -C)
    fi

    local context curcontext="$curcontext" state line
    local current_url=""
    local current_method="GET"


    # Parse current command to extract URL and method
    for ((i = 2; i <= CURRENT; i++)); do
        if [[ ${words[i]} == -X || ${words[i]} == --request ]]; then
            (( i++ ))
            [[ $i -le CURRENT ]] && current_method=${words[i]}
        elif [[ ${words[i]} != -* && ${words[i-1]} != -* ]]; then
            # This might be the URL
            [[ ${words[i]} == http* ]] && current_url=${words[i]}
        fi
    done

    _arguments "${_arguments_options[@]}" '(-h --help)'{-h,--help}'[Display help]' '{-H,--header}'*'[Pass custom header]:header:->headers' '(-o --output)'{-o,--output}'[Write output to file]:output file:_files' '(-d --data)'{-d,--data}'[Pass request body]:body:->bodies' '(-X --request)'{-X,--request}'[Specify request method]:method:(GET POST PUT DELETE PATCH)' '*--data-urlencode[Specify query parameter]:query:->queries' '(-G --get)'{-G,--get}'[Append request body as query parameters]' '(-v --verbose)'{-v,--verbose}'[Verbose mode]' '*:URL:->urls' && ret=0
    
    case $state in
        urls)
            local -a url_options
            url_options=(
            "#;

/// The frame between the list of URLs and the blocks of query parameters.
pub const SCRIPT_AFTER_URLS: &'static str = r#"
            )
            _describe -t urls "URLs" url_options && ret=0
            ;;
        headers)
            local -a header_options
            _describe -t headers "Headers" header_options && ret=0
            ;;
        queries)
            local -a query_options
            "#;

/// The frame between the blocks of query parameters and those of request
/// bodies.
pub const SCRIPT_AFTER_QUERIES: &'static str = r#"

            if [[ -z "$PREFIX" || "$PREFIX" = '$' || "$PREFIX" = "$'" ]]; then
              # First tab press - show complete options
              compstate[insert]=menu   # Force menu completion
              compstate[list]=list     # Always show the list
              compadd -Q -X "Query Parameters" -- "${query_options[@]}"
            else
              # Get the currently typed text and match complete options only
              local current="$PREFIX$SUFFIX"
              local -a matches=()

              for opt in "${query_options[@]}"; do
                if [[ "$opt" = "$current"* ]]; then
                  matches+=("$opt")
                fi
              done

              if (( ${#matches} > 0 )); then
                compstate[insert]=all
                compadd -Q -- "${matches[@]}"
              fi
            fi
            ;;
        bodies)
            local -a body_options descriptions
            "#;

/// The frame after the blocks of request bodies.
pub const SCRIPT_TAIL: &'static str = r#"

            # Check if we're at the beginning of completion or continuing
            if [[ -z "$PREFIX" || "$PREFIX" = '$' || "$PREFIX" = "$'" ]]; then
              # First tab press - show complete options
              compstate[insert]=menu   # Force menu completion
              compstate[list]=list     # Always show the list
              compadd -Q -X "Request Body Examples" -d descriptions -- "${body_options[@]}"
            else
              # Get the currently typed text and match complete options only
              local current="$PREFIX$SUFFIX"
              local -a matches=()

              for opt in "${body_options[@]}"; do
                if [[ "$opt" = "$current"* ]]; then
                  matches+=("$opt")
                fi
              done

              if (( ${#matches} > 0 )); then
                compstate[insert]=all
                compadd -Q -- "${matches[@]}"
              fi
            fi
            ;;
    esac
    return ret

}


if [ "$funcstack[1]" = "_custom_curl_env" ]; then
    _custom_curl_env "$@"
else
    compdef _custom_curl_env curl
fi

"#;

/// What stands between two words of the URL list.
pub const URL_SEPARATOR: &'static str = "\n            ";

/// What stands between two blocks.
pub const BLOCK_SEPARATOR: &'static str = "\n";

/// What stands between two words of a list of query parameters.
pub const OPTION_SEPARATOR: &'static str = "\n                  ";

/// What stands between two words of a list of bodies or of labels.
pub const BODY_SEPARATOR: &'static str = "\n                ";

/// A block up to the pattern that guards it.
pub const GUARD_OPEN: &'static str = "\n            if [[ $current_url =~ ";

/// A block between its pattern and its method.
pub const GUARD_METHOD: &'static str = " && $current_method == ";

/// A block of query parameters between its method and its words.
pub const QUERY_OPEN: &'static str = " ]]; then\n                query_options=(\n                  ";

/// The end of a block of query parameters.
pub const QUERY_CLOSE: &'static str = "\n                )\n            fi";

/// A block of request bodies between its method and its bodies.
pub const BODY_OPEN: &'static str = " ]]; then\n              body_options=(\n                ";

/// A block of request bodies between its bodies and its labels.
pub const BODY_LABELS: &'static str = "\n              )\n              descriptions=(\n                ";

/// The end of a block of request bodies.
pub const BODY_CLOSE: &'static str = "\n              )\n            fi";

/// What precedes the name in the word of a query parameter.
pub const OPTION_OPEN: &'static str = "$'\\'";

/// What follows the name in the word of a query parameter.
pub const OPTION_CLOSE: &'static str = "=\\''";

/// What precedes the text in the word of a request body.
pub const EXAMPLE_OPEN: &'static str = "$'\\$\\'";

/// What follows the text in the word of a request body.
pub const EXAMPLE_CLOSE: &'static str = "\\''";

/// What encloses a URL and a label.
pub const QUOTE: &'static str = "'";

/// The word that lists a URL: the URL in single quotes, with a backslash
/// before each colon.
pub open spec fn listed_url(address: Seq<char>) -> Seq<char> {
    colons_escaped(QUOTE@ + address + QUOTE@)
}

/// The word that lists a path: its display form joined onto the base URL.
/// `None` where the two do not join.
pub open spec fn url_entry(base: url::Url, path: (Seq<char>, PathItemView)) -> Option<Seq<char>> {
    match joined_text(base, display_of(path.0)) {
        Some(address) => Some(listed_url(address)),
        None => None,
    }
}

/// The URL list: the words of the paths that join onto the base URL, in the
/// order of the document.
pub open spec fn url_entries(paths: Seq<(Seq<char>, PathItemView)>, base: url::Url) -> Seq<
    Seq<char>,
> {
    paths.filter_map(|path: (Seq<char>, PathItemView)| url_entry(base, path))
}

/// The pattern that guards the blocks of a path: its match pattern joined
/// onto the base URL. `None` where the template is malformed or the two do
/// not join.
pub open spec fn guard_of(base: url::Url, template: Seq<char>) -> Option<Seq<char>> {
    match pattern_of(template) {
        Some(pattern) => joined_text(base, pattern),
        None => None,
    }
}

/// The word that offers a query parameter.
pub open spec fn query_option(name: Seq<char>) -> Seq<char> {
    OPTION_OPEN@ + name + OPTION_CLOSE@
}

/// The block that offers the query parameters `names` to the requests that
/// `guard` and `method` select.
pub open spec fn query_block(guard: Seq<char>, method: Method, names: Seq<Seq<char>>) -> Seq<
    char,
> {
    GUARD_OPEN@ + guard + GUARD_METHOD@ + method.upper_text() + QUERY_OPEN@ + join_with(
        names.map_values(|name: Seq<char>| query_option(name)),
        OPTION_SEPARATOR@,
    ) + QUERY_CLOSE@
}

/// The word that offers a request body.
pub open spec fn body_option(text: Seq<char>) -> Seq<char> {
    EXAMPLE_OPEN@ + text + EXAMPLE_CLOSE@
}

/// The word that labels a request body.
pub open spec fn body_label(label: Seq<char>) -> Seq<char> {
    QUOTE@ + label + QUOTE@
}

/// The block that offers the request bodies `examples`, each a label and an
/// escaped text, to the requests that `guard` and `method` select. Bodies
/// and labels stand in the same order.
pub open spec fn body_block(
    guard: Seq<char>,
    method: Method,
    examples: Seq<(Seq<char>, Seq<char>)>,
) -> Seq<char> {
    GUARD_OPEN@ + guard + GUARD_METHOD@ + method.upper_text() + BODY_OPEN@ + join_with(
        examples.map_values(|e: (Seq<char>, Seq<char>)| body_option(e.1)),
        BODY_SEPARATOR@,
    ) + BODY_LABELS@ + join_with(
        examples.map_values(|e: (Seq<char>, Seq<char>)| body_label(e.0)),
        BODY_SEPARATOR@,
    ) + BODY_CLOSE@
}

/// What one operation means for the blocks of query parameters: a failure
/// that ends the run, where one of its parameters is a pointer and the
/// document has no components; else its block, if it has one. It has none
/// where a parameter cannot be resolved, where it has no query parameter,
/// and where its path has no guard.
pub open spec fn query_step(
    entry: EntryView,
    components: Option<ComponentStoreView>,
    base: url::Url,
) -> Result<Option<Seq<char>>, ResolveErrorView> {
    match parameter_index(entry.operation.parameters, components) {
        Err(ResolveErrorView::ComponentsAbsent) => Err(ResolveErrorView::ComponentsAbsent),
        Err(_) => Ok(None),
        Ok(parameters) => {
            let names = query_names_of(parameters);
            if names.len() == 0 {
                Ok(None)
            } else {
                match guard_of(base, entry.template) {
                    Some(guard) => Ok(Some(query_block(guard, entry.method, names))),
                    None => Ok(None),
                }
            }
        },
    }
}

/// The blocks of query parameters of a list of operations, in order, or the
/// failure of the first operation that ends the run.
pub open spec fn query_blocks(
    entries: Seq<EntryView>,
    components: Option<ComponentStoreView>,
    base: url::Url,
) -> Result<Seq<Seq<char>>, ResolveErrorView>
    decreases entries.len(),
{
    if entries.len() == 0 {
        Ok(Seq::empty())
    } else {
        match query_blocks(entries.drop_last(), components, base) {
            Err(e) => Err(e),
            Ok(blocks) => match query_step(entries.last(), components, base) {
                Err(e) => Err(e),
                Ok(Some(block)) => Ok(blocks.push(block)),
                Ok(None) => Ok(blocks),
            },
        }
    }
}

/// The block of request bodies of one operation, if it has one. It has none
/// where it has no example to offer and where its path has no guard.
pub open spec fn body_step(
    entry: EntryView,
    components: Option<ComponentStoreView>,
    base: url::Url,
) -> Option<Seq<char>> {
    let examples = body_examples(entry.operation.request_body, components);
    if examples.len() == 0 {
        None
    } else {
        match guard_of(base, entry.template) {
            Some(guard) => Some(body_block(guard, entry.method, examples)),
            None => None,
        }
    }
}

/// The blocks of request bodies of a list of operations, in order.
pub open spec fn body_blocks(
    entries: Seq<EntryView>,
    components: Option<ComponentStoreView>,
    base: url::Url,
) -> Seq<Seq<char>> {
    entries.filter_map(|entry: EntryView| body_step(entry, components, base))
}

/// The script with its three lists set into the frame.
pub open spec fn script_text(
    urls: Seq<Seq<char>>,
    queries: Seq<Seq<char>>,
    bodies: Seq<Seq<char>>,
) -> Seq<char> {
    SCRIPT_HEAD@ + join_with(urls, URL_SEPARATOR@) + SCRIPT_AFTER_URLS@ + join_with(
        queries,
        BLOCK_SEPARATOR@,
    ) + SCRIPT_AFTER_QUERIES@ + join_with(bodies, BLOCK_SEPARATOR@) + SCRIPT_TAIL@
}

/// The completion script of a document for a base URL, whose query is
/// discarded: the frame with the URL list of the paths and the blocks of
/// all operations, or the failure that ends the run.
pub open spec fn completion_script(document: DocumentView, base_url: url::Url) -> Result<
    Seq<char>,
    ResolveErrorView,
> {
    let base = url_without_query(base_url);
    let entries = all_entries(document.paths);
    match query_blocks(entries, document.components, base) {
        Err(e) => Err(e),
        Ok(queries) => Ok(
            script_text(
                url_entries(document.paths, base),
                queries,
                body_blocks(entries, document.components, base),
            ),
        ),
    }
}

/// The model of the outcome of making the blocks of query parameters.
pub open spec fn block_outcome(r: Result<Vec<String>, ResolveError>) -> Result<
    Seq<Seq<char>>,
    ResolveErrorView,
> {
    match r {
        Ok(blocks) => Ok(texts(blocks@)),
        Err(e) => Err(e@),
    }
}

/// The model of the outcome of making the script.
pub open spec fn script_outcome(r: Result<String, ResolveError>) -> Result<
    Seq<char>,
    ResolveErrorView,
> {
    match r {
        Ok(script) => Ok(script@),
        Err(e) => Err(e@),
    }
}

/// Once the operations up to some point have ended the run, so have all.
pub proof fn lemma_query_failure_stays(
    entries: Seq<EntryView>,
    n: int,
    components: Option<ComponentStoreView>,
    base: url::Url,
)
    requires
        0 <= n <= entries.len(),
        query_blocks(entries.take(n), components, base) is Err,
    ensures
        query_blocks(entries, components, base) == query_blocks(
            entries.take(n),
            components,
            base,
        ),
    decreases entries.len() - n,
{
    if n == entries.len() {
        assert(entries.take(n) =~= entries);
    } else {
        assert(entries.take(n + 1).drop_last() =~= entries.take(n));
        lemma_query_failure_stays(entries, n + 1, components, base);
    }
}

/// The URL list of the paths of a document: one word for each path that
/// joins onto the base URL, in the order of the document.
pub fn url_listing(paths: &NamedMap<PathItem>, base: &url::Url) -> (words: Vec<String>)
    ensures
        texts(words@) == url_entries(paths@, *base),
{
    let ghost f = |path: (Seq<char>, PathItemView)| url_entry(*base, path);
    let mut words: Vec<String> = Vec::new();
    let n = paths.len();
    let mut i: usize = 0;
    assert(paths@.take(0) =~= Seq::empty());
    assert(texts(words@) =~= Seq::empty());
    while i < n
        invariant
            i <= n,
            n == paths@.len(),
            f == (|path: (Seq<char>, PathItemView)| url_entry(*base, path)),
            texts(words@) == paths@.take(i as int).filter_map(f),
        decreases n - i,
    {
        let template = paths.name_at(i);
        let ghost before = texts(words@);
        proof {
            paths@.lemma_filter_map_take_succ(f, i as int);
        }
        let display = display_form(template);
        match join_text(base, display.as_str()) {
            Ok(address) => {
                let mut quoted = String::new();
                quoted.append(QUOTE);
                quoted.append(address.as_str());
                quoted.append(QUOTE);
                assert(quoted@ =~= QUOTE@ + address@ + QUOTE@);
                let word = escape_colons(quoted.as_str());
                words.push(word);
                assert(texts(words@) =~= before + seq![listed_url(address@)]);
            },
            Err(_) => {
                assert(texts(words@) =~= before + Seq::<Seq<char>>::empty());
            },
        }
        i += 1;
    }
    assert(paths@.take(n as int) =~= paths@);
    words
}

/// The pattern that guards the blocks of a path, if it has one.
pub fn guard(base: &url::Url, template: &str) -> (r: Option<String>)
    ensures
        match r {
            Some(text) => guard_of(*base, template@) == Some(text@),
            None => guard_of(*base, template@) is None,
        },
{
    match match_pattern(template) {
        Ok(pattern) => match join_text(base, pattern.as_str()) {
            Ok(text) => Some(text),
            Err(_) => None,
        },
        Err(_) => None,
    }
}

/// The block that offers the query parameters `names` to the requests that
/// `guard` and `method` select.
pub fn format_query_block(guard: &str, method: Method, names: &Vec<String>) -> (block: String)
    ensures
        block@ == query_block(guard@, method, texts(names@)),
{
    let ghost all = texts(names@);
    let ghost wanted = all.map_values(|name: Seq<char>| query_option(name));
    let mut words: Vec<String> = Vec::new();
    let mut i: usize = 0;
    assert(texts(words@) =~= wanted.take(0));
    while i < names.len()
        invariant
            i <= names.len(),
            all == texts(names@),
            wanted == all.map_values(|name: Seq<char>| query_option(name)),
            texts(words@) == wanted.take(i as int),
        decreases names.len() - i,
    {
        let ghost before = texts(words@);
        let mut word = String::new();
        word.append(OPTION_OPEN);
        word.append(names[i].as_str());
        word.append(OPTION_CLOSE);
        assert(word@ =~= query_option(all[i as int]));
        let ghost text = word@;
        words.push(word);
        assert(wanted[i as int] == text);
        assert(wanted.take(i + 1) =~= wanted.take(i as int).push(text));
        assert(texts(words@) =~= before.push(text));
        i += 1;
    }
    assert(wanted.take(names.len() as int) =~= wanted);
    let list = join_lines(&words, OPTION_SEPARATOR);
    let mut block = String::new();
    block.append(GUARD_OPEN);
    block.append(guard);
    block.append(GUARD_METHOD);
    block.append(method.upper());
    block.append(QUERY_OPEN);
    block.append(list.as_str());
    block.append(QUERY_CLOSE);
    block
}

/// The block that offers the request bodies `examples`, each a label and an
/// escaped text, to the requests that `guard` and `method` select.
pub fn format_body_block(guard: &str, method: Method, examples: &Vec<(String, String)>) -> (block:
    String)
    ensures
        block@ == body_block(guard@, method, pair_views(examples@)),
{
    let ghost all = pair_views(examples@);
    let ghost wanted_bodies = all.map_values(|e: (Seq<char>, Seq<char>)| body_option(e.1));
    let ghost wanted_labels = all.map_values(|e: (Seq<char>, Seq<char>)| body_label(e.0));
    let mut bodies: Vec<String> = Vec::new();
    let mut labels: Vec<String> = Vec::new();
    let mut i: usize = 0;
    assert(texts(bodies@) =~= wanted_bodies.take(0));
    assert(texts(labels@) =~= wanted_labels.take(0));
    while i < examples.len()
        invariant
            i <= examples.len(),
            all == pair_views(examples@),
            wanted_bodies == all.map_values(|e: (Seq<char>, Seq<char>)| body_option(e.1)),
            wanted_labels == all.map_values(|e: (Seq<char>, Seq<char>)| body_label(e.0)),
            texts(bodies@) == wanted_bodies.take(i as int),
            texts(labels@) == wanted_labels.take(i as int),
        decreases examples.len() - i,
    {
        let ghost bodies_before = texts(bodies@);
        let ghost labels_before = texts(labels@);
        let mut body = String::new();
        body.append(EXAMPLE_OPEN);
        body.append(examples[i].1.as_str());
        body.append(EXAMPLE_CLOSE);
        assert(body@ =~= body_option(all[i as int].1));
        let ghost body_text = body@;
        bodies.push(body);
        assert(wanted_bodies[i as int] == body_text);
        assert(wanted_bodies.take(i + 1) =~= wanted_bodies.take(i as int).push(body_text));
        assert(texts(bodies@) =~= bodies_before.push(body_text));
        let mut label = String::new();
        label.append(QUOTE);
        label.append(examples[i].0.as_str());
        label.append(QUOTE);
        assert(label@ =~= body_label(all[i as int].0));
        let ghost label_text = label@;
        labels.push(label);
        assert(wanted_labels[i as int] == label_text);
        assert(wanted_labels.take(i + 1) =~= wanted_labels.take(i as int).push(label_text));
        assert(texts(labels@) =~= labels_before.push(label_text));
        i += 1;
    }
    assert(wanted_bodies.take(examples.len() as int) =~= wanted_bodies);
    assert(wanted_labels.take(examples.len() as int) =~= wanted_labels);
    let body_list = join_lines(&bodies, BODY_SEPARATOR);
    let label_list = join_lines(&labels, BODY_SEPARATOR);
    let mut block = String::new();
    block.append(GUARD_OPEN);
    block.append(guard);
    block.append(GUARD_METHOD);
    block.append(method.upper());
    block.append(BODY_OPEN);
    block.append(body_list.as_str());
    block.append(BODY_LABELS);
    block.append(label_list.as_str());
    block.append(BODY_CLOSE);
    block
}

/// The blocks of query parameters of a list of operations, in order. The
/// run ends with a failure at the first operation that has a pointer among
/// its parameters while the document has no components.
pub fn query_options(
    entries: &Vec<Entry<'_>>,
    components: &Option<ComponentStore>,
    base: &url::Url,
) -> (r: Result<Vec<String>, ResolveError>)
    ensures
        block_outcome(r) == query_blocks(entry_views(entries@), store_view(*components), *base),
{
    let ghost all = entry_views(entries@);
    let mut blocks: Vec<String> = Vec::new();
    let mut i: usize = 0;
    assert(all.take(0) =~= Seq::empty());
    assert(texts(blocks@) =~= Seq::empty());
    while i < entries.len()
        invariant
            i <= entries.len(),
            all == entry_views(entries@),
            Ok::<Seq<Seq<char>>, ResolveErrorView>(texts(blocks@)) == query_blocks(
                all.take(i as int),
                store_view(*components),
                *base,
            ),
        decreases entries.len() - i,
    {
        let entry = &entries[i];
        let ghost before = texts(blocks@);
        assert(all.take(i + 1).drop_last() =~= all.take(i as int));
        assert(all.take(i + 1).last() == entry@);
        match parameter_map(entry.operation.parameters.as_slice(), components) {
            Err(e) => {
                match e {
                    ResolveError::ComponentsAbsent => {
                        proof {
                            lemma_query_failure_stays(all, i + 1, store_view(*components), *base);
                        }
                        return Err(ResolveError::ComponentsAbsent);
                    },
                    ResolveError::UnknownComponentKey { .. } => {},
                }
            },
            Ok(parameters) => {
                let names = query_names(&parameters);
                if names.len() > 0 {
                    match guard(base, entry.template) {
                        Some(pattern) => {
                            let block = format_query_block(pattern.as_str(), entry.method, &names);
                            blocks.push(block);
                            assert(texts(blocks@) =~= before.push(block@));
                        },
                        None => {},
                    }
                }
            },
        }
        i += 1;
    }
    assert(all.take(entries.len() as int) =~= all);
    Ok(blocks)
}

/// The blocks of request bodies of a list of operations, in order.
pub fn body_options(
    entries: &Vec<Entry<'_>>,
    components: &Option<ComponentStore>,
    base: &url::Url,
) -> (blocks: Vec<String>)
    ensures
        texts(blocks@) == body_blocks(entry_views(entries@), store_view(*components), *base),
{
    let ghost all = entry_views(entries@);
    let ghost f = |entry: EntryView| body_step(entry, store_view(*components), *base);
    let mut blocks: Vec<String> = Vec::new();
    let mut i: usize = 0;
    assert(all.take(0) =~= Seq::empty());
    assert(texts(blocks@) =~= Seq::empty());
    while i < entries.len()
        invariant
            i <= entries.len(),
            all == entry_views(entries@),
            f == (|entry: EntryView| body_step(entry, store_view(*components), *base)),
            texts(blocks@) == all.take(i as int).filter_map(f),
        decreases entries.len() - i,
    {
        let entry = &entries[i];
        let ghost before = texts(blocks@);
        proof {
            all.lemma_filter_map_take_succ(f, i as int);
            assert(all[i as int] == entry@);
        }
        let examples = request_body_examples(&entry.operation.request_body, components);
        if examples.len() > 0 {
            match guard(base, entry.template) {
                Some(pattern) => {
                    let block = format_body_block(pattern.as_str(), entry.method, &examples);
                    blocks.push(block);
                    assert(texts(blocks@) =~= before + seq![block@]);
                },
                None => {},
            }
        }
        assert(texts(blocks@) =~= before + (match f(all[i as int]) {
            Some(block) => seq![block],
            None => Seq::empty(),
        }));
        i += 1;
    }
    assert(all.take(entries.len() as int) =~= all);
    blocks
}

/// The script with its three lists set into the frame.
pub fn assemble(urls: &Vec<String>, queries: &Vec<String>, bodies: &Vec<String>) -> (script:
    String)
    ensures
        script@ == script_text(texts(urls@), texts(queries@), texts(bodies@)),
{
    let url_list = join_lines(urls, URL_SEPARATOR);
    let query_list = join_lines(queries, BLOCK_SEPARATOR);
    let body_list = join_lines(bodies, BLOCK_SEPARATOR);
    let mut script = String::new();
    script.append(SCRIPT_HEAD);
    script.append(url_list.as_str());
    script.append(SCRIPT_AFTER_URLS);
    script.append(query_list.as_str());
    script.append(SCRIPT_AFTER_QUERIES);
    script.append(body_list.as_str());
    script.append(SCRIPT_TAIL);
    script
}

/// The zsh completion script of a document for the server at `base_url`.
///
/// The query of the base URL is discarded. The run fails only where an
/// operation has a pointer among its parameters and the document has no
/// components; whatever else cannot be resolved, compiled or joined leaves
/// out the word or the block that it would have given.
pub fn get_zsh_content(spec: &Document, base_url: url::Url) -> (r: Result<String, ResolveError>)
    ensures
        script_outcome(r) == completion_script(spec@, base_url),
        r is Err <==> spec@.components is None && needs_components(spec@),
        r is Err ==> r == Err::<String, ResolveError>(ResolveError::ComponentsAbsent),
{
    proof {
        lemma_script_fails(spec@, base_url);
    }
    let base = without_query(base_url);
    let urls = url_listing(&spec.paths, &base);
    let entries = spec.operations();
    let queries = match query_options(&entries, &spec.components, &base) {
        Ok(blocks) => blocks,
        Err(e) => {
            return Err(e);
        },
    };
    let bodies = body_options(&entries, &spec.components, &base);
    Ok(assemble(&urls, &queries, &bodies))
}

/// Whether an operation of the document has a pointer among its
/// parameters.
pub open spec fn needs_components(document: DocumentView) -> bool {
    exists|k: int|
        0 <= k < all_entries(document.paths).len() && has_pointer(
            (#[trigger] all_entries(document.paths)[k]).operation.parameters,
        )
}

/// An operation ends the run exactly when the document has no components
/// and one of the operation's parameters is a pointer.
pub proof fn lemma_query_step_fails(
    entry: EntryView,
    components: Option<ComponentStoreView>,
    base: url::Url,
)
    ensures
        query_step(entry, components, base) is Err <==> components is None && has_pointer(
            entry.operation.parameters,
        ),
        query_step(entry, components, base) is Err ==> query_step(entry, components, base) == Err::<
            Option<Seq<char>>,
            ResolveErrorView,
        >(ResolveErrorView::ComponentsAbsent),
{
    lemma_components_absent(
        entry.operation.parameters,
        ComponentKind::Parameter,
        collection_of::<Parameter>(components),
    );
}

/// The blocks of query parameters fail exactly when one of the operations
/// ends the run, and then for want of components.
pub proof fn lemma_query_blocks_fail(
    entries: Seq<EntryView>,
    components: Option<ComponentStoreView>,
    base: url::Url,
)
    ensures
        query_blocks(entries, components, base) is Err <==> components is None && exists|k: int|
            0 <= k < entries.len() && has_pointer((#[trigger] entries[k]).operation.parameters),
        query_blocks(entries, components, base) is Err ==> query_blocks(entries, components, base)
            == Err::<Seq<Seq<char>>, ResolveErrorView>(ResolveErrorView::ComponentsAbsent),
    decreases entries.len(),
{
    if entries.len() > 0 {
        let front = entries.drop_last();
        lemma_query_blocks_fail(front, components, base);
        lemma_query_step_fails(entries.last(), components, base);
        if components is None {
            if exists|k: int|
                0 <= k < front.len() && has_pointer((#[trigger] front[k]).operation.parameters) {
                let k = choose|k: int|
                    0 <= k < front.len() && has_pointer(
                        (#[trigger] front[k]).operation.parameters,
                    );
                assert(has_pointer(entries[k].operation.parameters));
            }
            if has_pointer(entries.last().operation.parameters) {
                assert(has_pointer(entries[entries.len() - 1].operation.parameters));
            }
            if exists|k: int|
                0 <= k < entries.len() && has_pointer(
                    (#[trigger] entries[k]).operation.parameters,
                ) {
                let k = choose|k: int|
                    0 <= k < entries.len() && has_pointer(
                        (#[trigger] entries[k]).operation.parameters,
                    );
                if k < front.len() {
                    assert(has_pointer(front[k].operation.parameters));
                }
            }
        }
    }
}

/// A script is owed for every document but one that has no components and
/// yet has a pointer among the parameters of an operation; such a document
/// fails for want of components. In particular, a document without
/// components and without references has a script.
pub proof fn lemma_script_fails(document: DocumentView, base_url: url::Url)
    ensures
        completion_script(document, base_url) is Err <==> document.components is None
            && needs_components(document),
        completion_script(document, base_url) is Err ==> completion_script(document, base_url)
            == Err::<Seq<char>, ResolveErrorView>(ResolveErrorView::ComponentsAbsent),
{
    lemma_query_blocks_fail(
        all_entries(document.paths),
        document.components,
        url_without_query(base_url),
    );
}

/// Where every path joins onto the base URL, the URL list has exactly one
/// word for each path, in the order of the document: the word that lists
/// the joined URL of the path's display form.
pub proof fn lemma_every_path_is_listed(paths: Seq<(Seq<char>, PathItemView)>, base: url::Url)
    requires
        forall|i: int|
            0 <= i < paths.len() ==> joined_text(base, display_of((#[trigger] paths[i]).0))
                is Some,
    ensures
        url_entries(paths, base).len() == paths.len(),
        forall|i: int|
            0 <= i < paths.len() ==> #[trigger] url_entries(paths, base)[i] == listed_url(
                joined_text(base, display_of(paths[i].0))->0,
            ),
    decreases paths.len(),
{
    let f = |path: (Seq<char>, PathItemView)| url_entry(base, path);
    if paths.len() > 0 {
        let front = paths.drop_last();
        assert forall|i: int| 0 <= i < front.len() implies joined_text(
            base,
            display_of((#[trigger] front[i]).0),
        ) is Some by {
            assert(front[i] == paths[i]);
        }
        lemma_every_path_is_listed(front, base);
        assert(joined_text(base, display_of(paths[paths.len() - 1].0)) is Some);
        assert forall|i: int| 0 <= i < paths.len() implies #[trigger] url_entries(paths, base)[i]
            == listed_url(joined_text(base, display_of(paths[i].0))->0) by {
            if i < front.len() {
                assert(front[i] == paths[i]);
                assert(url_entries(paths, base)[i] == url_entries(front, base)[i]);
            }
        }
    }
}

/// The URL list never has more words than the document has paths.
pub proof fn lemma_url_list_is_bounded(paths: Seq<(Seq<char>, PathItemView)>, base: url::Url)
    ensures
        url_entries(paths, base).len() <= paths.len(),
    decreases paths.len(),
{
    if paths.len() > 0 {
        lemma_url_list_is_bounded(paths.drop_last(), base);
    }
}

} // verus!
