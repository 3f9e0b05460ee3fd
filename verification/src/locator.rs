//! The source locator's logic: from a locator string to a function in a tree
//! of items.
//!
//! A locator is a file path and a function path, joined by `::`. The function
//! path names nested scopes, outermost first, and then the function. Reading
//! the file is left to the caller; what is here works on text and on the
//! items that the file holds.

use vstd::prelude::*;
use vstd::string::StringExecFns;
use crate::registry::{
    defs_view, distinct_names, up_to_limit, Registry, RegistryError, MAX_FUNCTIONS,
};
use crate::syntax::{idents_view, FnView, FunctionDefinition, IdentView, NameView, QualifiedName};

verus! {

/// Why no function was located.
#[derive(Clone, Copy, Debug, PartialEq, Eq, Structural)]
pub enum LocateError {
    /// The source could not be read. Nothing in this crate reads a source, so
    /// nothing in it returns this; it is for the caller that does.
    IoError,
    /// The locator or the source is not in the supported form.
    ParseError,
    /// A segment of the path names nothing, or not the right kind of item.
    NotFoundError,
}

/// An item of a source file or of a module.
#[derive(Debug, PartialEq, Eq)]
pub enum Item {
    /// A function.
    Function(FunctionDefinition),
    /// A module and the items inside it.
    Module { name: String, items: Vec<Item> },
    /// Any other item.
    Other,
}

/// The mathematical model of an [`Item`].
pub enum ItemView {
    Function(FnView),
    Module { name: IdentView, items: Seq<ItemView> },
    Other,
}

/// The views of a sequence of items.
pub open spec fn items_view(s: Seq<Item>) -> Seq<ItemView>
    decreases s,
{
    Seq::new(
        s.len(),
        |i: int|
            if 0 <= i < s.len() {
                s[i]@
            } else {
                ItemView::Other
            },
    )
}

impl View for Item {
    type V = ItemView;

    open spec fn view(&self) -> ItemView
        decreases self,
    {
        match self {
            Item::Function(f) => ItemView::Function(f@),
            Item::Module { name, items } => ItemView::Module {
                name: name@,
                items: items_view(items@),
            },
            Item::Other => ItemView::Other,
        }
    }
}

/// The functions among `items`, in source order, those inside modules
/// included.
pub open spec fn functions_in(items: Seq<ItemView>) -> Seq<FnView>
    decreases items, 1nat,
{
    if items.len() == 0 {
        Seq::empty()
    } else {
        functions_in(items.drop_last()) + functions_of(items.last())
    }
}

/// The functions that one item holds: itself, if it is a function, or the
/// functions among the items of the module.
pub open spec fn functions_of(item: ItemView) -> Seq<FnView>
    decreases item, 0nat,
{
    match item {
        ItemView::Function(f) => seq![f],
        ItemView::Module { name, items } => functions_in(items),
        ItemView::Other => Seq::empty(),
    }
}

/// `text` without the double quotes at its start.
pub open spec fn strip_front(text: Seq<char>) -> Seq<char>
    decreases text.len(),
{
    if text.len() > 0 && text.first() == '"' {
        strip_front(text.drop_first())
    } else {
        text
    }
}

/// `text` without the double quotes at its end.
pub open spec fn strip_back(text: Seq<char>) -> Seq<char>
    decreases text.len(),
{
    if text.len() > 0 && text.last() == '"' {
        strip_back(text.drop_last())
    } else {
        text
    }
}

/// `text` without the double quotes at either end.
pub open spec fn trim_quotes(text: Seq<char>) -> Seq<char> {
    strip_back(strip_front(text))
}

/// A `::` starts at position `i` of `text`.
pub open spec fn separator_at(text: Seq<char>, i: int) -> bool {
    0 <= i && i + 1 < text.len() && text[i] == ':' && text[i + 1] == ':'
}

/// The first `::` of `text` starts at position `i`.
pub open spec fn first_separator(text: Seq<char>, i: int) -> bool {
    separator_at(text, i) && forall|k: int| 0 <= k < i ==> !separator_at(text, k)
}

/// The two parts of a locator: what stands before the first `::` of the
/// text, taken without the quotes around it, and what stands after. `None`
/// where the text holds no `::`.
pub open spec fn split_locator_spec(input: Seq<char>) -> Option<(Seq<char>, Seq<char>)> {
    let text = trim_quotes(input);
    if exists|i: int| separator_at(text, i) {
        let i = choose|i: int| first_separator(text, i);
        Some((text.subrange(0, i), text.subrange(i + 2, text.len() as int)))
    } else {
        None
    }
}

/// The function that `path` names among `items`. The first segments name
/// modules, each inside the one before; the last names a function by the last
/// identifier of its name. In each scope the first module of the right name
/// is the one that is entered.
pub open spec fn located(items: Seq<ItemView>, path: NameView) -> Option<FnView> {
    located_from(items, path, 0)
}

/// [`located`], looking only at the items from position `start` on.
pub open spec fn located_from(items: Seq<ItemView>, path: NameView, start: nat) -> Option<FnView>
    decreases items, items.len() - start,
{
    if path.len() == 0 || start >= items.len() {
        None
    } else {
        match items[start as int] {
            ItemView::Function(f) => if path.len() == 1 && f.name.len() > 0 && f.name.last()
                == path[0] {
                Some(f)
            } else {
                located_from(items, path, start + 1)
            },
            ItemView::Module { name, items: inner } => if path.len() > 1 && name == path[0] {
                located_from(inner, path.drop_first(), 0)
            } else {
                located_from(items, path, start + 1)
            },
            ItemView::Other => located_from(items, path, start + 1),
        }
    }
}

/// The character opens a bracketed group or a list of generic arguments.
pub open spec fn is_opening(c: char) -> bool {
    c == '<' || c == '(' || c == '[' || c == '{'
}

/// A text that is handed to the path parser: one without any opening
/// bracket. A function path is made of identifiers and `::` and has none.
pub open spec fn is_path_text(text: Seq<char>) -> bool {
    forall|i: int| 0 <= i < text.len() ==> !is_opening(#[trigger] text[i])
}

/// What the path parser of `syn` makes of a text: the identifiers of the
/// segments of the path, or `None` where the text is no path.
pub uninterp spec fn path_segments(text: Seq<char>) -> Option<Seq<Seq<char>>>;

/// The error of the parser, `syn::Error`. Nothing is read from it.
#[verifier::external_type_specification]
#[verifier::external_body]
pub struct ExSynError(syn::Error);

/// Parses `text` as a path with `syn::parse_str::<syn::Path>` and hands out
/// the identifier of each segment, as text. The contract gives the outcome a
/// name and claims nothing else of it: the parser decides what a path is.
/// The parser recurses on bracketed groups and on generic arguments, as deep
/// as the text nests them; texts with an opening bracket are kept from it.
#[verifier::external_body]
fn parse_path(text: &str) -> (parsed: Result<Vec<String>, syn::Error>)
    requires
        is_path_text(text@),
    ensures
        match parsed {
            Ok(found) => path_segments(text@) == Some(idents_view(found@)),
            Err(_) => path_segments(text@) is None,
        },
{
    let path = syn::parse_str::<syn::Path>(text)?;
    Ok(path.segments.iter().map(|segment| segment.ident.to_string()).collect())
}

/// Whether `text` may be handed to the path parser.
pub fn check_path_text(text: &str) -> (ok: bool)
    ensures
        ok == is_path_text(text@),
{
    let n = text.unicode_len();
    let mut i: usize = 0;
    while i < n
        invariant
            i <= n,
            n == text@.len(),
            forall|k: int| 0 <= k < i ==> !is_opening(#[trigger] text@[k]),
        decreases n - i,
    {
        let c = text.get_char(i);
        if c == '<' || c == '(' || c == '[' || c == '{' {
            return false;
        }
        i += 1;
    }
    true
}

/// The qualified name that `text` spells, as far as the path parser accepts
/// it. A text that holds an opening bracket is refused unread.
pub fn parse_name(text: &str) -> (name: Option<QualifiedName>)
    ensures
        match name {
            Some(found) => is_path_text(text@) && path_segments(text@) == Some(found@),
            None => !is_path_text(text@) || path_segments(text@) is None,
        },
{
    if !check_path_text(text) {
        return None;
    }
    match parse_path(text) {
        Ok(idents) => Some(QualifiedName::new(idents)),
        Err(_) => None,
    }
}

proof fn lemma_strip_front(text: Seq<char>, a: int)
    requires
        0 <= a <= text.len(),
        forall|k: int| 0 <= k < a ==> text[k] == '"',
    ensures
        strip_front(text) == strip_front(text.subrange(a, text.len() as int)),
    decreases a,
{
    if a == 0 {
        assert(text.subrange(0, text.len() as int) =~= text);
    } else {
        let rest = text.drop_first();
        assert(text.first() == '"');
        assert forall|k: int| 0 <= k < a - 1 implies rest[k] == '"' by {
            assert(rest[k] == text[k + 1]);
        }
        lemma_strip_front(rest, a - 1);
        assert(rest.subrange(a - 1, rest.len() as int) =~= text.subrange(a, text.len() as int));
    }
}

proof fn lemma_strip_back(text: Seq<char>, b: int)
    requires
        0 <= b <= text.len(),
        forall|k: int| b <= k < text.len() ==> text[k] == '"',
    ensures
        strip_back(text) == strip_back(text.subrange(0, b)),
    decreases text.len() - b,
{
    if b == text.len() {
        assert(text.subrange(0, b) =~= text);
    } else {
        let rest = text.drop_last();
        assert(text.last() == '"');
        lemma_strip_back(rest, b);
        assert(rest.subrange(0, b) =~= text.subrange(0, b));
    }
}

/// Splits a locator at its first `::`, after taking the double quotes off
/// both ends: the file path, then the function path.
pub fn split_locator(input: &str) -> (parts: Option<(String, String)>)
    ensures
        match parts {
            Some((file, path)) => split_locator_spec(input@) == Some((file@, path@)),
            None => split_locator_spec(input@) is None,
        },
{
    let n = input.unicode_len();
    let mut a: usize = 0;
    while a < n && input.get_char(a) == '"'
        invariant
            a <= n,
            n == input@.len(),
            forall|k: int| 0 <= k < a ==> input@[k] == '"',
        decreases n - a,
    {
        a += 1;
    }
    let mut b: usize = n;
    while b > a && input.get_char(b - 1) == '"'
        invariant
            a <= b <= n,
            n == input@.len(),
            forall|k: int| b <= k < n ==> input@[k] == '"',
        decreases b,
    {
        b -= 1;
    }
    let ghost text = input@.subrange(a as int, b as int);
    proof {
        let front = input@.subrange(a as int, n as int);
        lemma_strip_front(input@, a as int);
        assert(strip_front(front) == front);
        assert forall|k: int| b - a <= k < front.len() implies front[k] == '"' by {
            assert(front[k] == input@[a + k]);
        }
        lemma_strip_back(front, b - a);
        assert(front.subrange(0, b - a) =~= text);
        assert(strip_back(text) == text);
        assert(trim_quotes(input@) == text);
    }
    let mut i: usize = a;
    while b - i > 1
        invariant
            a <= i <= b,
            a <= b <= n,
            trim_quotes(input@) == text,
            n == input@.len(),
            text == input@.subrange(a as int, b as int),
            forall|k: int| 0 <= k < i - a ==> !separator_at(text, k),
        decreases b - i,
    {
        if input.get_char(i) == ':' && input.get_char(i + 1) == ':' {
            let file = input.substring_char(a, i);
            let path = input.substring_char(i + 2, b);
            proof {
                let at = i - a;
                assert(text[at] == input@[i as int]);
                assert(text[at + 1] == input@[i + 1]);
                assert(first_separator(text, at));
                let chosen = choose|c: int| first_separator(text, c);
                assert(chosen == at) by {
                    if chosen < at {
                        assert(!separator_at(text, chosen));
                    }
                    if at < chosen {
                        assert(!separator_at(text, at));
                    }
                }
                assert(text.subrange(0, at) =~= file@);
                assert(text.subrange(at + 2, text.len() as int) =~= path@);
            }
            return Some((String::from_str(file), String::from_str(path)));
        }
        proof {
            assert(text[i - a] == input@[i as int]);
            assert(text[i - a + 1] == input@[i + 1]);
        }
        i += 1;
    }
    None
}

/// [`find_function`] from segment `depth` of the path on.
#[verifier::loop_isolation(false)]
fn find_below<'a>(items: &'a Vec<Item>, path: &QualifiedName, depth: usize) -> (found: Option<
    &'a FunctionDefinition,
>)
    requires
        depth <= path@.len(),
    ensures
        match found {
            Some(f) => located(items_view(items@), path@.subrange(depth as int, path@.len() as int))
                == Some(f@),
            None => located(items_view(items@), path@.subrange(depth as int, path@.len() as int))
                is None,
        },
    decreases items,
{
    let ghost iv = items_view(items@);
    let ghost rest = path@.subrange(depth as int, path@.len() as int);
    let segments = path.segments.len();
    if depth >= segments {
        return None;
    }
    let last = depth + 1 == segments;
    let mut i: usize = 0;
    while i < items.len()
        invariant
            i <= items.len(),
            located(iv, rest) == located_from(iv, rest, i as nat),
        decreases items.len() - i,
    {
        assert(iv[i as int] == items@[i as int]@);
        assert(rest[0] == path@[depth as int]);
        match &items[i] {
            Item::Function(f) => {
                let names = f.name.segments.len();
                if last && names > 0 && f.name.segments[names - 1] == path.segments[depth] {
                    assert(f@.name.last() == f.name.segments@[names - 1]@);
                    return Some(f);
                }
                assert(f@.name.len() > 0 ==> f@.name.last() == f.name.segments@[names - 1]@);
            },
            Item::Module { name, items: inner } => {
                if !last && *name == path.segments[depth] {
                    assert(rest.drop_first() =~= path@.subrange(
                        depth + 1,
                        path@.len() as int,
                    ));
                    return find_below(inner, path, depth + 1);
                }
            },
            Item::Other => {},
        }
        i += 1;
    }
    None
}

/// The function that `path` names among `items`, if there is one: every
/// segment but the last must name a module, and the last a function.
pub fn find_function<'a>(items: &'a Vec<Item>, path: &QualifiedName) -> (found: Option<
    &'a FunctionDefinition,
>)
    ensures
        match found {
            Some(f) => located(items_view(items@), path@) == Some(f@),
            None => located(items_view(items@), path@) is None,
        },
{
    assert(path@.subrange(0, path@.len() as int) =~= path@);
    find_below(items, path, 0)
}

/// The function that the path spelled by `text` names among `items`. A text
/// that is kept from the path parser, or that the parser refuses, is a parse
/// error; a path that names no function is not found.
pub fn locate<'a>(items: &'a Vec<Item>, text: &str) -> (found: Result<
    &'a FunctionDefinition,
    LocateError,
>)
    ensures
        match found {
            Ok(f) => {
                &&& is_path_text(text@)
                &&& path_segments(text@) is Some
                &&& located(items_view(items@), path_segments(text@).unwrap()) == Some(f@)
            },
            Err(LocateError::ParseError) => !is_path_text(text@) || path_segments(text@) is None,
            Err(LocateError::NotFoundError) => {
                &&& is_path_text(text@)
                &&& path_segments(text@) is Some
                &&& located(items_view(items@), path_segments(text@).unwrap()) is None
            },
            Err(LocateError::IoError) => false,
        },
{
    match parse_name(text) {
        Some(path) => match find_function(items, &path) {
            Some(f) => Ok(f),
            None => Err(LocateError::NotFoundError),
        },
        None => Err(LocateError::ParseError),
    }
}

/// Appends to `out` the functions among `items`.
#[verifier::loop_isolation(false)]
fn collect_functions<'a>(items: &'a Vec<Item>, out: &mut Vec<&'a FunctionDefinition>)
    ensures
        defs_view(final(out)@) == defs_view(old(out)@) + functions_in(items_view(items@)),
    decreases items,
{
    let ghost iv = items_view(items@);
    let ghost start = defs_view(out@);
    let mut i: usize = 0;
    assert(defs_view(out@) =~= start + functions_in(iv.take(0)));
    while i < items.len()
        invariant
            i <= items.len(),
            defs_view(out@) == start + functions_in(iv.take(i as int)),
        decreases items.len() - i,
    {
        let ghost before = defs_view(out@);
        match &items[i] {
            Item::Function(f) => {
                out.push(f);
                assert(defs_view(out@) =~= before + seq![f@]);
            },
            Item::Module { name, items: inner } => {
                collect_functions(inner, out);
            },
            Item::Other => {
                assert(defs_view(out@) =~= before + functions_of(iv[i as int]));
            },
        }
        proof {
            assert(iv[i as int] == items@[i as int]@);
            assert(defs_view(out@) == before + functions_of(iv[i as int]));
            assert(iv.take(i + 1).drop_last() =~= iv.take(i as int));
            assert(iv.take(i + 1).last() == iv[i as int]);
            assert(functions_in(iv.take(i + 1)) == functions_in(iv.take(i as int)) + functions_of(
                iv[i as int],
            ));
            assert(defs_view(out@) =~= start + functions_in(iv.take(i + 1)));
        }
        i += 1;
    }
    assert(iv.take(items.len() as int) =~= iv);
}

impl Registry {
    /// The registry of a source: every function among `items`, those inside
    /// modules included, registered in source order. It fails at the first
    /// function that cannot be registered.
    pub fn of_items(items: &Vec<Item>) -> (outcome: Result<Registry, RegistryError>)
        ensures
            match outcome {
                Ok(registry) => {
                    &&& registry.wf()
                    &&& registry@ == functions_in(items_view(items@))
                },
                Err(RegistryError::Duplicate) => !distinct_names(
                    up_to_limit(functions_in(items_view(items@))),
                ),
                Err(RegistryError::ResourceLimitExceeded) => {
                    &&& distinct_names(up_to_limit(functions_in(items_view(items@))))
                    &&& functions_in(items_view(items@)).len() > MAX_FUNCTIONS
                },
            },
    {
        let mut functions: Vec<&FunctionDefinition> = Vec::new();
        assert(defs_view(functions@) =~= Seq::<FnView>::empty());
        collect_functions(items, &mut functions);
        assert(defs_view(functions@) =~= functions_in(items_view(items@)));
        Registry::of_definitions(&functions)
    }
}

} // verus!
