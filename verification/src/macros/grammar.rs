//! The grammar of annotated functions and structs.
//!
//! A function is read as attributes, `pub`, `async`, `fn`, a name, generics, parameters, a return
//! type and a body; a struct as attributes, `pub`, `struct`, a name, generics and named fields.
//! Types are taken as they stand. Angle brackets count as brackets, though the compiler does not
//! group what is between them.
use crate::macros::token::{copy_tokens, Delimiter, Token, TokenKind};
use std::sync::Arc;
use vstd::prelude::*;

verus! {

/// What ends a stretch of tokens that is taken as it stands.
#[derive(Debug, Copy, Clone, Eq, PartialEq, Structural)]
pub enum Stop {
    /// `>`
    Angle,
    /// `,`
    Comma,
    /// A group in braces.
    Brace,
}

/// Whether a token ends a stretch.
pub open spec fn stops(token: Token, stop: Stop) -> bool {
    match stop {
        Stop::Angle => crate::macros::token::is_punct(token, '>'),
        Stop::Comma => crate::macros::token::is_punct(token, ','),
        Stop::Brace => crate::macros::token::is_group(token, Delimiter::Brace),
    }
}

fn does_stop(token: &Token, stop: Stop) -> (r: bool)
    ensures
        r == stops(*token, stop),
{
    match stop {
        Stop::Angle => token.is_punct('>'),
        Stop::Comma => token.is_punct(','),
        Stop::Brace => token.is_group(Delimiter::Brace),
    }
}

/// Where the tree that starts at `at` ends: a pair of angle brackets with what is between them, or
/// a single token. An angle bracket that is not closed is a single token.
pub open spec fn tree_end(tokens: Seq<Token>, at: int) -> int
    decreases tokens.len() - at, 0nat,
{
    if 0 <= at < tokens.len() && crate::macros::token::is_punct(tokens[at], '<') {
        let close = stretch_end(tokens, at + 1, Stop::Angle);
        if at + 1 <= close < tokens.len() {
            close + 1
        } else {
            at + 1
        }
    } else {
        at + 1
    }
}

/// Where a stretch of trees that starts at `at` ends: at the first tree that ends it, or at the
/// end.
pub open spec fn stretch_end(tokens: Seq<Token>, at: int, stop: Stop) -> int
    decreases tokens.len() - at, 1nat,
{
    if 0 <= at < tokens.len() && !stops(tokens[at], stop) {
        let next = tree_end(tokens, at);
        if at < next <= tokens.len() {
            stretch_end(tokens, next, stop)
        } else {
            at
        }
    } else {
        at
    }
}

proof fn tree_end_bounds(tokens: Seq<Token>, at: int)
    requires
        0 <= at < tokens.len(),
    ensures
        at < tree_end(tokens, at) <= tokens.len(),
    decreases tokens.len() - at, 0nat,
{
    stretch_end_bounds(tokens, at + 1, Stop::Angle);
}

proof fn stretch_end_bounds(tokens: Seq<Token>, at: int, stop: Stop)
    requires
        0 <= at <= tokens.len(),
    ensures
        at <= stretch_end(tokens, at, stop) <= tokens.len(),
        stretch_end(tokens, at, stop) < tokens.len() ==> stops(
            tokens[stretch_end(tokens, at, stop)],
            stop,
        ),
    decreases tokens.len() - at, 1nat,
{
    if at < tokens.len() && !stops(tokens[at], stop) {
        tree_end_bounds(tokens, at);
        stretch_end_bounds(tokens, tree_end(tokens, at), stop);
    }
}

fn find_tree_end(tokens: &[Token], at: usize) -> (r: usize)
    requires
        at < tokens@.len(),
    ensures
        r == tree_end(tokens@, at as int),
        at < r <= tokens@.len(),
    decreases tokens@.len() - at, 0nat,
{
    if tokens[at].is_punct('<') {
        let close: usize = find_stretch_end(tokens, at + 1, Stop::Angle);
        if close < tokens.len() {
            close + 1
        } else {
            at + 1
        }
    } else {
        at + 1
    }
}

fn find_stretch_end(tokens: &[Token], at: usize, stop: Stop) -> (r: usize)
    requires
        at <= tokens@.len(),
    ensures
        r == stretch_end(tokens@, at as int, stop),
        at <= r <= tokens@.len(),
    decreases tokens@.len() - at, 1nat,
{
    let mut i: usize = at;
    while i < tokens.len() && !does_stop(&tokens[i], stop)
        invariant
            at <= i <= tokens@.len(),
            stretch_end(tokens@, at as int, stop) == stretch_end(tokens@, i as int, stop),
        decreases tokens@.len() - i,
    {
        i = find_tree_end(tokens, i);
    }
    i
}

/// Whether an attribute starts at `at`: `#` and a group in square brackets.
pub open spec fn attribute_at(tokens: Seq<Token>, at: int) -> bool {
    &&& 0 <= at
    &&& at + 1 < tokens.len()
    &&& crate::macros::token::is_punct(tokens[at], '#')
    &&& crate::macros::token::is_group(tokens[at + 1], Delimiter::Bracket)
}

/// Where the attributes that start at `at` end.
pub open spec fn attributes_end(tokens: Seq<Token>, at: int) -> int
    decreases tokens.len() - at,
{
    if attribute_at(tokens, at) {
        attributes_end(tokens, at + 2)
    } else {
        at
    }
}

/// The attributes that start at `at`, each as `#` and its group.
pub open spec fn attributes_from(tokens: Seq<Token>, at: int) -> Seq<Seq<Token>>
    decreases tokens.len() - at,
{
    if attribute_at(tokens, at) {
        seq![tokens.subrange(at, at + 2)] + attributes_from(tokens, at + 2)
    } else {
        Seq::empty()
    }
}

/// What each of several token lists holds.
pub open spec fn token_lists(lists: Seq<Vec<Token>>) -> Seq<Seq<Token>> {
    lists.map_values(|l: Vec<Token>| l@)
}

fn take_attributes(tokens: &[Token], at: usize) -> (r: (Vec<Vec<Token>>, usize))
    requires
        at <= tokens@.len(),
    ensures
        token_lists(r.0@) == attributes_from(tokens@, at as int),
        r.1 == attributes_end(tokens@, at as int),
        at <= r.1 <= tokens@.len(),
{
    let mut attributes: Vec<Vec<Token>> = Vec::new();
    let mut i: usize = at;
    assert(token_lists(attributes@) + attributes_from(tokens@, at as int) =~= attributes_from(
        tokens@,
        at as int,
    ));
    while tokens.len() - i >= 2 && tokens[i].is_punct('#') && tokens[i + 1].is_group(
        Delimiter::Bracket,
    )
        invariant
            at <= i <= tokens@.len(),
            attributes_end(tokens@, at as int) == attributes_end(tokens@, i as int),
            token_lists(attributes@) + attributes_from(tokens@, i as int) == attributes_from(
                tokens@,
                at as int,
            ),
        decreases tokens@.len() - i,
    {
        let ghost before = token_lists(attributes@);
        attributes.push(copy_tokens(tokens, i, i + 2));
        proof {
            assert(token_lists(attributes@) =~= before.push(tokens@.subrange(i as int, i + 2)));
            assert(token_lists(attributes@) + attributes_from(tokens@, i + 2) =~= before
                + attributes_from(tokens@, i as int));
        }
        i = i + 2;
    }
    assert(attributes_from(tokens@, i as int) =~= Seq::empty());
    assert(token_lists(attributes@) =~= attributes_from(tokens@, at as int));
    (attributes, i)
}

/// Whether an attribute is documentation.
pub open spec fn is_doc(attribute: Seq<Token>) -> bool {
    let inner = crate::macros::token::inside(attribute[1]);
    inner.len() > 0 && crate::macros::token::is_word(inner[0], "doc"@)
}

/// Whether an attribute is `#[key]`.
pub open spec fn is_key(attribute: Seq<Token>) -> bool {
    let inner = crate::macros::token::inside(attribute[1]);
    inner.len() == 1 && crate::macros::token::is_word(inner[0], "key"@)
}

fn check_doc(attribute: &Vec<Token>) -> (r: bool)
    requires
        attribute@.len() == 2,
    ensures
        r == is_doc(attribute@),
{
    match &attribute[1].kind {
        TokenKind::Group(_, inner) => inner.len() > 0 && inner[0].is_word("doc"),
        _ => false,
    }
}

fn check_key(attribute: &Vec<Token>) -> (r: bool)
    requires
        attribute@.len() == 2,
    ensures
        r == is_key(attribute@),
{
    match &attribute[1].kind {
        TokenKind::Group(_, inner) => inner.len() == 1 && inner[0].is_word("key"),
        _ => false,
    }
}

/// Whether a certain identifier stands at `at`.
pub open spec fn word_at(tokens: Seq<Token>, at: int, word: Seq<char>) -> bool {
    0 <= at < tokens.len() && crate::macros::token::is_word(tokens[at], word)
}

fn see_word(tokens: &[Token], at: usize, word: &str) -> (r: bool)
    ensures
        r == word_at(tokens@, at as int, word@),
        r ==> at < usize::MAX,
{
    at < tokens.len() && tokens[at].is_word(word)
}

/// Where an optional identifier ends.
pub open spec fn after_word(tokens: Seq<Token>, at: int, word: Seq<char>) -> int {
    if word_at(tokens, at, word) {
        at + 1
    } else {
        at
    }
}

/// Where optional generics end: `<`, at least one tree, and `>`.
pub open spec fn generics_end(tokens: Seq<Token>, at: int) -> int {
    let close = stretch_end(tokens, at + 1, Stop::Angle);
    if 0 <= at < tokens.len() && crate::macros::token::is_punct(tokens[at], '<') && at + 1 < close
        < tokens.len() {
        close + 1
    } else {
        at
    }
}

fn find_generics_end(tokens: &[Token], at: usize) -> (r: usize)
    requires
        at <= tokens@.len(),
    ensures
        r == generics_end(tokens@, at as int),
        at <= r <= tokens@.len(),
{
    if at < tokens.len() && tokens[at].is_punct('<') {
        let close: usize = find_stretch_end(tokens, at + 1, Stop::Angle);
        if at + 1 < close && close < tokens.len() {
            return close + 1;
        }
    }
    at
}

/// A parameter of a function.
#[derive(Debug)]
pub struct Param {
    /// Its name.
    pub name: Token,
    /// Its type.
    pub param_type: Vec<Token>,
}

/// What a parameter is: its name and its type.
pub type ParamView = (Token, Seq<Token>);

impl View for Param {
    type V = ParamView;

    open spec fn view(&self) -> ParamView {
        (self.name, self.param_type@)
    }
}

/// What several parameters are.
pub open spec fn param_views(params: Seq<Param>) -> Seq<ParamView> {
    params.map_values(|p: Param| p@)
}

/// Where the parameter that starts at `at` ends: a name, a colon and a type. Without one, at `at`.
pub open spec fn param_end(tokens: Seq<Token>, at: int) -> int {
    let end = stretch_end(tokens, at + 2, Stop::Comma);
    if 0 <= at && at + 1 < tokens.len() && crate::macros::token::is_ident(tokens[at])
        && crate::macros::token::is_punct(tokens[at + 1], ':') && end > at + 2 {
        end
    } else {
        at
    }
}

/// The parameters that start at `at`, separated by commas, up to the first that is none.
pub open spec fn params_from(tokens: Seq<Token>, at: int) -> Seq<ParamView>
    decreases tokens.len() - at,
{
    let end = param_end(tokens, at);
    if end <= at {
        Seq::empty()
    } else {
        let param = (tokens[at], tokens.subrange(at + 2, end));
        if end < tokens.len() && crate::macros::token::is_punct(tokens[end], ',') {
            seq![param] + params_from(tokens, end + 1)
        } else {
            seq![param]
        }
    }
}

fn take_params(tokens: &[Token]) -> (r: Vec<Param>)
    ensures
        param_views(r@) == params_from(tokens@, 0),
{
    let mut params: Vec<Param> = Vec::new();
    let mut at: usize = 0;
    assert(param_views(params@) + params_from(tokens@, 0) =~= params_from(tokens@, 0));
    loop
        invariant
            at <= tokens@.len(),
            param_views(params@) + params_from(tokens@, at as int) == params_from(tokens@, 0),
        decreases tokens@.len() - at,
    {
        if tokens.len() - at < 2 || !tokens[at].is_ident() || !tokens[at + 1].is_punct(':') {
            assert(params_from(tokens@, at as int) =~= Seq::empty());
            assert(param_views(params@) =~= params_from(tokens@, 0));
            return params;
        }
        let end: usize = find_stretch_end(tokens, at + 2, Stop::Comma);
        if end == at + 2 {
            assert(params_from(tokens@, at as int) =~= Seq::empty());
            assert(param_views(params@) =~= params_from(tokens@, 0));
            return params;
        }
        let ghost before = param_views(params@);
        let ghost view = (tokens@[at as int], tokens@.subrange(at + 2, end as int));
        params.push(
            Param { name: tokens[at].clone(), param_type: copy_tokens(tokens, at + 2, end) },
        );
        assert(param_views(params@) =~= before.push(view));
        if end < tokens.len() && tokens[end].is_punct(',') {
            assert(param_views(params@) + params_from(tokens@, end + 1) =~= before + params_from(
                tokens@,
                at as int,
            ));
            at = end + 1;
        } else {
            assert(param_views(params@) =~= before + params_from(tokens@, at as int));
            return params;
        }
    }
}

/// Where an optional return type ends: `->` and at least one tree before the body.
pub open spec fn return_end(tokens: Seq<Token>, at: int) -> int {
    let end = stretch_end(tokens, at + 2, Stop::Brace);
    if 0 <= at && at + 1 < tokens.len() && tokens[at].kind == TokenKind::Punct('-', true)
        && crate::macros::token::is_punct(tokens[at + 1], '>') && end > at + 2 {
        end
    } else {
        at
    }
}

fn find_return_end(tokens: &[Token], at: usize) -> (r: usize)
    requires
        at <= tokens@.len(),
    ensures
        r == return_end(tokens@, at as int),
        at <= r <= tokens@.len(),
        r > at ==> r > at + 2,
{
    if tokens.len() - at >= 2 {
        let arrow: bool = match &tokens[at].kind {
            TokenKind::Punct(c, joint) => *c == '-' && *joint,
            _ => false,
        };
        if arrow && tokens[at + 1].is_punct('>') {
            let end: usize = find_stretch_end(tokens, at + 2, Stop::Brace);
            if end > at + 2 {
                return end;
            }
        }
    }
    at
}

/// A function that a macro was put on.
#[derive(Debug)]
pub struct FnItem {
    /// `pub`, or nothing.
    pub vis: Vec<Token>,
    /// Whether it is `async`.
    pub is_async: bool,
    /// Its name.
    pub name: Token,
    /// Its generics, with the angle brackets.
    pub generics: Vec<Token>,
    /// Its parameters.
    pub params: Vec<Param>,
    /// Its return type.
    pub return_type: Vec<Token>,
    /// Its body.
    pub body: Token,
    /// Its documentation.
    pub doc_attrs: Vec<Vec<Token>>,
    /// Its other attributes.
    pub other_attrs: Vec<Vec<Token>>,
}

/// What a function is.
pub ghost struct FnItemView {
    /// `pub`, or nothing.
    pub vis: Seq<Token>,
    /// Whether it is `async`.
    pub is_async: bool,
    /// Its name.
    pub name: Token,
    /// Its generics, with the angle brackets.
    pub generics: Seq<Token>,
    /// Its parameters.
    pub params: Seq<ParamView>,
    /// Its return type, if it has one.
    pub return_type: Option<Seq<Token>>,
    /// Its body.
    pub body: Token,
    /// Its attributes.
    pub attrs: Seq<Seq<Token>>,
}

/// The places at which the parts of a function stand.
pub ghost struct FnPlaces {
    /// After the attributes.
    pub vis: int,
    /// After `pub`.
    pub async_word: int,
    /// After `async`.
    pub fn_word: int,
    /// After the name.
    pub generics: int,
    /// After the generics.
    pub params: int,
    /// After the return type.
    pub body: int,
}

/// Where the parts of a function stand, if it is one.
pub open spec fn fn_places(tokens: Seq<Token>) -> FnPlaces {
    let vis = attributes_end(tokens, 0);
    let async_word = after_word(tokens, vis, "pub"@);
    let fn_word = after_word(tokens, async_word, "async"@);
    let generics = fn_word + 2;
    let params = generics_end(tokens, generics);
    let body = return_end(tokens, params + 1);
    FnPlaces { vis, async_word, fn_word, generics, params, body }
}

/// The function that tokens are, if they are one. What follows the body is not looked at.
pub open spec fn fn_in(tokens: Seq<Token>) -> Option<FnItemView> {
    let at = fn_places(tokens);
    if word_at(tokens, at.fn_word, "fn"@) && at.fn_word + 1 < tokens.len()
        && crate::macros::token::is_ident(tokens[at.fn_word + 1]) && at.params < tokens.len()
        && crate::macros::token::is_group(tokens[at.params], Delimiter::Parenthesis) && at.body
        < tokens.len() && crate::macros::token::is_group(tokens[at.body], Delimiter::Brace) {
        Some(
            FnItemView {
                vis: tokens.subrange(at.vis, at.async_word),
                is_async: word_at(tokens, at.async_word, "async"@),
                name: tokens[at.fn_word + 1],
                generics: tokens.subrange(at.generics, at.params),
                params: params_from(crate::macros::token::inside(tokens[at.params]), 0),
                return_type: if at.body > at.params + 1 {
                    Some(tokens.subrange(at.params + 3, at.body))
                } else {
                    None
                },
                body: tokens[at.body],
                attrs: attributes_from(tokens, 0),
            },
        )
    } else {
        None
    }
}

/// The attributes that are documentation, and those that are not.
pub open spec fn with_doc(attrs: Seq<Seq<Token>>, doc: bool) -> Seq<Seq<Token>> {
    attrs.filter(|a: Seq<Token>| is_doc(a) == doc)
}

/// Whether tokens are the empty tuple type.
pub open spec fn is_unit_type(tokens: Seq<Token>) -> bool {
    &&& tokens.len() == 1
    &&& crate::macros::token::is_group(tokens[0], Delimiter::Parenthesis)
    &&& crate::macros::token::inside(tokens[0]).len() == 0
}

/// Whether an item is the function that was read.
pub open spec fn fn_item_is(item: FnItem, view: FnItemView) -> bool {
    &&& item.vis@ == view.vis
    &&& item.is_async == view.is_async
    &&& item.name == view.name
    &&& item.generics@ == view.generics
    &&& param_views(item.params@) == view.params
    &&& match view.return_type {
        Some(tokens) => item.return_type@ == tokens,
        None => is_unit_type(item.return_type@),
    }
    &&& item.body == view.body
    &&& token_lists(item.doc_attrs@) == with_doc(view.attrs, true)
    &&& token_lists(item.other_attrs@) == with_doc(view.attrs, false)
}

/// Attributes, of which each is `#` and a group.
pub open spec fn all_attributes(attrs: Seq<Seq<Token>>) -> bool {
    forall|i: int| 0 <= i < attrs.len() ==> (#[trigger] attrs[i]).len() == 2
}

proof fn attributes_are_pairs(tokens: Seq<Token>, at: int)
    requires
        0 <= at,
    ensures
        all_attributes(attributes_from(tokens, at)),
    decreases tokens.len() - at,
{
    if attribute_at(tokens, at) {
        attributes_are_pairs(tokens, at + 2);
        let rest = attributes_from(tokens, at + 2);
        let all = attributes_from(tokens, at);
        assert forall|i: int| 0 <= i < all.len() implies (#[trigger] all[i]).len() == 2 by {
            if i > 0 {
                assert(all[i] == rest[i - 1]);
            }
        }
    }
}

fn part_attributes(attributes: Vec<Vec<Token>>) -> (r: (Vec<Vec<Token>>, Vec<Vec<Token>>))
    requires
        all_attributes(token_lists(attributes@)),
    ensures
        token_lists(r.0@) == with_doc(token_lists(attributes@), true),
        token_lists(r.1@) == with_doc(token_lists(attributes@), false),
{
    let ghost all = token_lists(attributes@);
    let mut docs: Vec<Vec<Token>> = Vec::new();
    let mut others: Vec<Vec<Token>> = Vec::new();
    let mut i: usize = 0;
    proof {
        reveal(Seq::filter);
        assert(token_lists(docs@) =~= Seq::empty());
        assert(token_lists(others@) =~= Seq::empty());
    }
    while i < attributes.len()
        invariant
            i <= attributes@.len(),
            all == token_lists(attributes@),
            all_attributes(all),
            token_lists(docs@) == with_doc(all.take(i as int), true),
            token_lists(others@) == with_doc(all.take(i as int), false),
        decreases attributes@.len() - i,
    {
        let ghost docs_before = token_lists(docs@);
        let ghost others_before = token_lists(others@);
        proof {
            reveal(Seq::filter);
            assert(all.take(i + 1).drop_last() =~= all.take(i as int));
            assert(all.take(i + 1).last() == all[i as int]);
            assert(all[i as int].len() == 2);
            assert(all[i as int] == attributes@[i as int]@);
        }
        let attribute: Vec<Token> = copy_tokens(attributes[i].as_slice(), 0, attributes[i].len());
        assert(attribute@ =~= all[i as int]);
        if check_doc(&attribute) {
            docs.push(attribute);
            assert(token_lists(docs@) =~= docs_before.push(all[i as int]));
        } else {
            others.push(attribute);
            assert(token_lists(others@) =~= others_before.push(all[i as int]));
        }
        i = i + 1;
    }
    assert(all.take(i as int) =~= all);
    (docs, others)
}

fn unit_type(span: usize) -> (r: Vec<Token>)
    ensures
        is_unit_type(r@),
{
    let mut r: Vec<Token> = Vec::new();
    let inner: Vec<Token> = Vec::new();
    r.push(Token { kind: TokenKind::Group(Delimiter::Parenthesis, Arc::new(inner)), span });
    r
}

/// The message for tokens that are no function.
pub open spec fn not_a_function() -> Seq<char> {
    "picante: failed to parse function"@
}

impl FnItem {
    /// Read a function.
    pub fn parse(tokens: &[Token]) -> (r: Result<FnItem, String>)
        ensures
            match fn_in(tokens@) {
                Some(view) => r matches Ok(item) && fn_item_is(item, view),
                None => r matches Err(message) && message@ == not_a_function(),
            },
    {
        let (attributes, vis_at) = take_attributes(tokens, 0);
        let async_at: usize = if see_word(tokens, vis_at, "pub") {
            vis_at + 1
        } else {
            vis_at
        };
        let is_async: bool = see_word(tokens, async_at, "async");
        let fn_at: usize = if is_async {
            async_at + 1
        } else {
            async_at
        };
        if !see_word(tokens, fn_at, "fn") || tokens.len() - fn_at < 2 || !tokens[fn_at
            + 1].is_ident() {
            return Err("picante: failed to parse function".to_owned());
        }
        let generics_at: usize = fn_at + 2;
        let params_at: usize = find_generics_end(tokens, generics_at);
        if params_at >= tokens.len() || !tokens[params_at].is_group(Delimiter::Parenthesis) {
            return Err("picante: failed to parse function".to_owned());
        }
        let body_at: usize = find_return_end(tokens, params_at + 1);
        if body_at >= tokens.len() || !tokens[body_at].is_group(Delimiter::Brace) {
            return Err("picante: failed to parse function".to_owned());
        }
        proof {
            attributes_are_pairs(tokens@, 0);
        }
        let (doc_attrs, other_attrs) = part_attributes(attributes);
        let params: Vec<Param> = match &tokens[params_at].kind {
            TokenKind::Group(_, inner) => take_params(inner.as_slice()),
            _ => Vec::new(),
        };
        let return_type: Vec<Token> = if body_at > params_at + 1 {
            copy_tokens(tokens, params_at + 3, body_at)
        } else {
            unit_type(tokens[params_at].span)
        };
        Ok(
            FnItem {
                vis: copy_tokens(tokens, vis_at, async_at),
                is_async,
                name: tokens[fn_at + 1].clone(),
                generics: copy_tokens(tokens, generics_at, params_at),
                params,
                return_type,
                body: tokens[body_at].clone(),
                doc_attrs,
                other_attrs,
            },
        )
    }
}

/// A field of a struct.
#[derive(Debug)]
pub struct FieldDecl {
    /// Its attributes.
    pub attrs: Vec<Vec<Token>>,
    /// `pub`, or nothing.
    pub vis: Vec<Token>,
    /// Its name.
    pub name: Token,
    /// Its type.
    pub ty: Vec<Token>,
}

/// What a field is.
#[verifier::ext_equal]
pub ghost struct FieldView {
    /// Its attributes.
    pub attrs: Seq<Seq<Token>>,
    /// `pub`, or nothing.
    pub vis: Seq<Token>,
    /// Its name.
    pub name: Token,
    /// Its type.
    pub ty: Seq<Token>,
}

impl View for FieldDecl {
    type V = FieldView;

    open spec fn view(&self) -> FieldView {
        FieldView {
            attrs: token_lists(self.attrs@),
            vis: self.vis@,
            name: self.name,
            ty: self.ty@,
        }
    }
}

/// What several fields are.
pub open spec fn field_views(fields: Seq<FieldDecl>) -> Seq<FieldView> {
    fields.map_values(|f: FieldDecl| f@)
}

/// Where the name of the field that starts at `at` stands, if there is one.
pub open spec fn field_name_at(tokens: Seq<Token>, at: int) -> int {
    after_word(tokens, attributes_end(tokens, at), "pub"@)
}

/// Where the field that starts at `at` ends: attributes, `pub`, a name, a colon and a type. Without
/// one, at `at`.
pub open spec fn field_end(tokens: Seq<Token>, at: int) -> int {
    let name = field_name_at(tokens, at);
    let end = stretch_end(tokens, name + 2, Stop::Comma);
    if 0 <= name && name + 1 < tokens.len() && crate::macros::token::is_ident(tokens[name])
        && crate::macros::token::is_punct(tokens[name + 1], ':') && end > name + 2 && end > at {
        end
    } else {
        at
    }
}

/// The field that starts at `at`.
pub open spec fn field_at(tokens: Seq<Token>, at: int) -> FieldView {
    let vis = attributes_end(tokens, at);
    let name = field_name_at(tokens, at);
    FieldView {
        attrs: attributes_from(tokens, at),
        vis: tokens.subrange(vis, name),
        name: tokens[name],
        ty: tokens.subrange(name + 2, field_end(tokens, at)),
    }
}

/// The fields that start at `at`, separated by commas, and where they end.
pub open spec fn fields_from(tokens: Seq<Token>, at: int) -> (Seq<FieldView>, int)
    decreases tokens.len() - at,
{
    let end = field_end(tokens, at);
    if end <= at {
        (Seq::empty(), at)
    } else if end < tokens.len() && crate::macros::token::is_punct(tokens[end], ',') {
        let (rest, last) = fields_from(tokens, end + 1);
        (seq![field_at(tokens, at)] + rest, last)
    } else {
        (seq![field_at(tokens, at)], end)
    }
}

fn take_field(tokens: &[Token], at: usize) -> (r: Option<(FieldDecl, usize)>)
    requires
        at <= tokens@.len(),
    ensures
        match r {
            Some((field, end)) => {
                &&& end == field_end(tokens@, at as int)
                &&& at < end <= tokens@.len()
                &&& field@ == field_at(tokens@, at as int)
            },
            None => field_end(tokens@, at as int) <= at,
        },
{
    let (attrs, vis_at) = take_attributes(tokens, at);
    let name_at: usize = if see_word(tokens, vis_at, "pub") {
        vis_at + 1
    } else {
        vis_at
    };
    if tokens.len() - name_at < 2 || !tokens[name_at].is_ident() || !tokens[name_at + 1].is_punct(
        ':',
    ) {
        return None;
    }
    let end: usize = find_stretch_end(tokens, name_at + 2, Stop::Comma);
    if end == name_at + 2 {
        return None;
    }
    let field = FieldDecl {
        attrs,
        vis: copy_tokens(tokens, vis_at, name_at),
        name: tokens[name_at].clone(),
        ty: copy_tokens(tokens, name_at + 2, end),
    };
    assert(field@ =~= field_at(tokens@, at as int));
    Some((field, end))
}

fn take_fields(tokens: &[Token]) -> (r: (Vec<FieldDecl>, usize))
    ensures
        field_views(r.0@) == fields_from(tokens@, 0).0,
        r.1 == fields_from(tokens@, 0).1,
{
    let mut fields: Vec<FieldDecl> = Vec::new();
    let mut at: usize = 0;
    let ghost all = fields_from(tokens@, 0);
    assert(field_views(fields@) + all.0 =~= all.0);
    loop
        invariant
            at <= tokens@.len(),
            all == fields_from(tokens@, 0),
            field_views(fields@) + fields_from(tokens@, at as int).0 == all.0,
            fields_from(tokens@, at as int).1 == all.1,
        decreases tokens@.len() - at,
    {
        let ghost before = field_views(fields@);
        let ghost view = field_at(tokens@, at as int);
        match take_field(tokens, at) {
            None => {
                assert(fields_from(tokens@, at as int).0 =~= Seq::empty());
                assert(field_views(fields@) =~= all.0);
                return (fields, at);
            },
            Some((field, end)) => {
                fields.push(field);
                assert(field_views(fields@) =~= before.push(view));
                if end < tokens.len() && tokens[end].is_punct(',') {
                    let ghost rest = fields_from(tokens@, end + 1);
                    assert(fields_from(tokens@, at as int).0 =~= seq![view] + rest.0);
                    assert(field_views(fields@) + rest.0 =~= all.0);
                    at = end + 1;
                } else {
                    assert(fields_from(tokens@, at as int).0 =~= seq![view]);
                    assert(field_views(fields@) =~= all.0);
                    return (fields, end);
                }
            },
        }
    }
}

/// A struct with named fields that a macro was put on.
#[derive(Debug)]
pub struct StructDecl {
    /// Its attributes.
    pub attrs: Vec<Vec<Token>>,
    /// `pub`, or nothing.
    pub vis: Vec<Token>,
    /// Its name.
    pub name: Token,
    /// Its generics, with the angle brackets.
    pub generics: Vec<Token>,
    /// Its fields.
    pub fields: Vec<FieldDecl>,
}

/// What a struct is.
#[verifier::ext_equal]
pub ghost struct StructView {
    /// Its attributes.
    pub attrs: Seq<Seq<Token>>,
    /// `pub`, or nothing.
    pub vis: Seq<Token>,
    /// Its name.
    pub name: Token,
    /// Its generics, with the angle brackets.
    pub generics: Seq<Token>,
    /// Its fields.
    pub fields: Seq<FieldView>,
}

impl View for StructDecl {
    type V = StructView;

    open spec fn view(&self) -> StructView {
        StructView {
            attrs: token_lists(self.attrs@),
            vis: self.vis@,
            name: self.name,
            generics: self.generics@,
            fields: field_views(self.fields@),
        }
    }
}

/// The struct that tokens are, if they are one. What follows the fields is not looked at.
pub open spec fn struct_in(tokens: Seq<Token>) -> Option<StructView> {
    let vis = attributes_end(tokens, 0);
    let word = after_word(tokens, vis, "pub"@);
    let fields = generics_end(tokens, word + 2);
    let inner = crate::macros::token::inside(tokens[fields]);
    if word_at(tokens, word, "struct"@) && word + 1 < tokens.len()
        && crate::macros::token::is_ident(tokens[word + 1]) && fields < tokens.len()
        && crate::macros::token::is_group(tokens[fields], Delimiter::Brace) && fields_from(
        inner,
        0,
    ).1 == inner.len() {
        Some(
            StructView {
                attrs: attributes_from(tokens, 0),
                vis: tokens.subrange(vis, word),
                name: tokens[word + 1],
                generics: tokens.subrange(word + 2, fields),
                fields: fields_from(inner, 0).0,
            },
        )
    } else {
        None
    }
}

impl StructDecl {
    /// Read a struct, if the tokens are one.
    pub fn parse(tokens: &[Token]) -> (r: Option<StructDecl>)
        ensures
            match struct_in(tokens@) {
                Some(view) => r matches Some(decl) && decl@ == view,
                None => r is None,
            },
    {
        let (attrs, vis_at) = take_attributes(tokens, 0);
        let word_at: usize = if see_word(tokens, vis_at, "pub") {
            vis_at + 1
        } else {
            vis_at
        };
        if !see_word(tokens, word_at, "struct") || tokens.len() - word_at < 2 || !tokens[word_at
            + 1].is_ident() {
            return None;
        }
        let fields_at: usize = find_generics_end(tokens, word_at + 2);
        if fields_at >= tokens.len() {
            return None;
        }
        match &tokens[fields_at].kind {
            TokenKind::Group(Delimiter::Brace, inner) => {
                let (fields, end) = take_fields(inner.as_slice());
                if end != inner.len() {
                    return None;
                }
                let decl = StructDecl {
                    attrs,
                    vis: copy_tokens(tokens, vis_at, word_at),
                    name: tokens[word_at + 1].clone(),
                    generics: copy_tokens(tokens, word_at + 2, fields_at),
                    fields,
                };
                assert(decl@ =~= struct_in(tokens@)->0);
                Some(decl)
            },
            _ => None,
        }
    }
}

/// A struct without the marks of a macro: its documentation, and its fields with the one that is
/// marked as the key.
#[derive(Debug)]
pub struct StructItem {
    /// `pub`, or nothing.
    pub vis: Vec<Token>,
    /// Its name.
    pub name: Token,
    /// Its generics, with the angle brackets.
    pub generics: Vec<Token>,
    /// Its fields.
    pub fields: Vec<StructField>,
    /// Its documentation; other attributes are left out.
    pub doc_attrs: Vec<Vec<Token>>,
}

/// A field, and whether it is marked as the key.
#[derive(Debug)]
pub struct StructField {
    /// Its name.
    pub name: Token,
    /// `pub`, or nothing.
    pub vis: Vec<Token>,
    /// Its type.
    pub ty: Vec<Token>,
    /// Its attributes but `#[key]`.
    pub attrs: Vec<Vec<Token>>,
    /// Whether it is marked with `#[key]`.
    pub is_key: bool,
}

/// The attributes but `#[key]`.
pub open spec fn without_key(attrs: Seq<Seq<Token>>) -> Seq<Seq<Token>> {
    attrs.filter(|a: Seq<Token>| !is_key(a))
}

/// Whether `#[key]` is among the attributes.
pub open spec fn has_key(attrs: Seq<Seq<Token>>) -> bool {
    exists|i: int| 0 <= i < attrs.len() && is_key(#[trigger] attrs[i])
}

/// Whether a field is the one that was read.
pub open spec fn field_is(field: StructField, view: FieldView) -> bool {
    &&& field.name == view.name
    &&& field.vis@ == view.vis
    &&& field.ty@ == view.ty
    &&& token_lists(field.attrs@) == without_key(view.attrs)
    &&& field.is_key == has_key(view.attrs)
}

/// Whether an item is the struct that was read.
pub open spec fn struct_item_is(item: StructItem, view: StructView) -> bool {
    &&& item.vis@ == view.vis
    &&& item.name == view.name
    &&& item.generics@ == view.generics
    &&& token_lists(item.doc_attrs@) == with_doc(view.attrs, true)
    &&& item.fields@.len() == view.fields.len()
    &&& forall|i: int|
        0 <= i < view.fields.len() ==> field_is(#[trigger] item.fields@[i], view.fields[i])
}

fn part_key(attributes: &Vec<Vec<Token>>) -> (r: (Vec<Vec<Token>>, bool))
    requires
        all_attributes(token_lists(attributes@)),
    ensures
        token_lists(r.0@) == without_key(token_lists(attributes@)),
        r.1 == has_key(token_lists(attributes@)),
{
    let ghost all = token_lists(attributes@);
    let mut rest: Vec<Vec<Token>> = Vec::new();
    let mut key: bool = false;
    let mut i: usize = 0;
    proof {
        reveal(Seq::filter);
        assert(token_lists(rest@) =~= Seq::empty());
    }
    while i < attributes.len()
        invariant
            i <= attributes@.len(),
            all == token_lists(attributes@),
            all_attributes(all),
            token_lists(rest@) == without_key(all.take(i as int)),
            key == has_key(all.take(i as int)),
        decreases attributes@.len() - i,
    {
        let ghost before = token_lists(rest@);
        let ghost shorter = all.take(i as int);
        let ghost longer = all.take(i + 1);
        proof {
            reveal(Seq::filter);
            assert(longer.drop_last() =~= shorter);
            assert(longer.last() == all[i as int]);
            assert(all[i as int].len() == 2);
            assert(all[i as int] == attributes@[i as int]@);
        }
        if check_key(&attributes[i]) {
            key = true;
            assert(is_key(longer[i as int]));
        } else {
            let attribute: Vec<Token> = copy_tokens(
                attributes[i].as_slice(),
                0,
                attributes[i].len(),
            );
            assert(attribute@ =~= all[i as int]);
            rest.push(attribute);
            assert(token_lists(rest@) =~= before.push(all[i as int]));
            proof {
                if has_key(longer) {
                    let k = choose|k: int| 0 <= k < longer.len() && is_key(#[trigger] longer[k]);
                    assert(is_key(shorter[k]));
                }
                if has_key(shorter) {
                    let k = choose|k: int| 0 <= k < shorter.len() && is_key(#[trigger] shorter[k]);
                    assert(is_key(longer[k]));
                }
            }
        }
        i = i + 1;
    }
    assert(all.take(i as int) =~= all);
    (rest, key)
}

proof fn field_attributes_are_pairs(tokens: Seq<Token>, at: int)
    requires
        0 <= at,
    ensures
        forall|i: int|
            0 <= i < fields_from(tokens, at).0.len() ==> all_attributes(
                (#[trigger] fields_from(tokens, at).0[i]).attrs,
            ),
    decreases tokens.len() - at,
{
    let end = field_end(tokens, at);
    if end > at {
        attributes_are_pairs(tokens, at);
        if end < tokens.len() && crate::macros::token::is_punct(tokens[end], ',') {
            field_attributes_are_pairs(tokens, end + 1);
            let rest = fields_from(tokens, end + 1).0;
            let all = fields_from(tokens, at).0;
            assert forall|i: int| 0 <= i < all.len() implies all_attributes(
                (#[trigger] all[i]).attrs,
            ) by {
                if i > 0 {
                    assert(all[i] == rest[i - 1]);
                }
            }
        }
    }
}

/// The message for tokens that are no struct.
pub open spec fn not_a_struct() -> Seq<char> {
    "picante: failed to parse struct"@
}

impl StructItem {
    /// Read a struct.
    pub fn parse(tokens: &[Token]) -> (r: Result<StructItem, String>)
        ensures
            match struct_in(tokens@) {
                Some(view) => r matches Ok(item) && struct_item_is(item, view),
                None => r matches Err(message) && message@ == not_a_struct(),
            },
    {
        let decl = match StructDecl::parse(tokens) {
            Some(decl) => decl,
            None => {
                return Err("picante: failed to parse struct".to_owned());
            },
        };
        let ghost view = decl@;
        proof {
            attributes_are_pairs(tokens@, 0);
            let vis = attributes_end(tokens@, 0);
            let word = after_word(tokens@, vis, "pub"@);
            let inner = crate::macros::token::inside(tokens@[generics_end(tokens@, word + 2)]);
            field_attributes_are_pairs(inner, 0);
        }
        let (doc_attrs, _) = part_attributes(decl.attrs);
        let mut fields: Vec<StructField> = Vec::new();
        let mut i: usize = 0;
        while i < decl.fields.len()
            invariant
                i <= decl.fields@.len(),
                fields@.len() == i,
                view.fields == field_views(decl.fields@),
                forall|j: int|
                    0 <= j < view.fields.len() ==> all_attributes(
                        (#[trigger] view.fields[j]).attrs,
                    ),
                forall|j: int| 0 <= j < i ==> field_is(#[trigger] fields@[j], view.fields[j]),
            decreases decl.fields@.len() - i,
        {
            let field: &FieldDecl = &decl.fields[i];
            assert(view.fields[i as int] == field@);
            assert(all_attributes(view.fields[i as int].attrs));
            let (attrs, is_key) = part_key(&field.attrs);
            let vis: Vec<Token> = copy_tokens(field.vis.as_slice(), 0, field.vis.len());
            let ty: Vec<Token> = copy_tokens(field.ty.as_slice(), 0, field.ty.len());
            assert(vis@ =~= field.vis@);
            assert(ty@ =~= field.ty@);
            fields.push(StructField { name: field.name.clone(), vis, ty, attrs, is_key });
            i = i + 1;
        }
        Ok(
            StructItem {
                vis: decl.vis,
                name: decl.name,
                generics: decl.generics,
                fields,
                doc_attrs,
            },
        )
    }
}

} // verus!
