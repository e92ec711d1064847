//! Structs and functions are read as they are written.
use crate::macros::grammar::{FnItem, StructItem};
#[allow(unused_imports)]
use crate::macros::grammar::{FieldView, FnItemView, ParamView, Stop, StructView};
#[allow(unused_imports)]
use crate::macros::token::Delimiter;
use crate::macros::token::{Token, TokenKind};
use vstd::prelude::*;

verus! {

/// Whether some tokens stand at a place among others.
pub open spec fn stand_at(tokens: Seq<Token>, at: int, part: Seq<Token>) -> bool {
    &&& 0 <= at
    &&& at + part.len() <= tokens.len()
    &&& forall|i: int| 0 <= i < part.len() ==> tokens[at + i] == #[trigger] part[i]
}

proof fn depths_add_up(a: Seq<Token>, b: Seq<Token>)
    ensures
        crate::macros::plan_laws::depth(a + b) == crate::macros::plan_laws::depth(a)
            + crate::macros::plan_laws::depth(b),
    decreases b.len(),
{
    reveal(crate::macros::plan_laws::depth);
    if b.len() == 0 {
        assert(a + b =~= a);
    } else {
        depths_add_up(a, b.drop_last());
        assert((a + b).drop_last() =~= a + b.drop_last());
        assert((a + b).last() == b.last());
    }
}

proof fn depths_go_on(body: Seq<Token>, k: int, n: int)
    requires
        0 <= k,
        0 <= n,
        k + n <= body.len(),
    ensures
        crate::macros::plan_laws::depth(body.take(k + n)) == crate::macros::plan_laws::depth(
            body.take(k),
        ) + crate::macros::plan_laws::depth(body.skip(k).take(n)),
{
    depths_add_up(body.take(k), body.skip(k).take(n));
    assert(body.take(k + n) =~= body.take(k) + body.skip(k).take(n));
}

proof fn depth_steps(body: Seq<Token>, n: int)
    requires
        0 <= n < body.len(),
    ensures
        crate::macros::plan_laws::depth(body.take(n + 1)) == crate::macros::plan_laws::depth(
            body.take(n),
        ) + (if crate::macros::plan_laws::opens(body[n]) {
            1int
        } else if crate::macros::plan_laws::closes(body[n]) {
            -1int
        } else {
            0int
        }),
{
    reveal(crate::macros::plan_laws::depth);
    assert(body.take(n + 1).drop_last() =~= body.take(n));
    assert(body.take(n + 1).last() == body[n]);
}

proof fn rest_is_balanced(body: Seq<Token>, k: int)
    requires
        crate::macros::plan_laws::is_balanced(body),
        0 <= k <= body.len(),
        crate::macros::plan_laws::depth(body.take(k)) == 0,
    ensures
        crate::macros::plan_laws::is_balanced(body.skip(k)),
{
    let rest = body.skip(k);
    assert forall|n: int| 0 <= n <= rest.len() implies crate::macros::plan_laws::depth(
        #[trigger] rest.take(n),
    ) >= 0 by {
        depths_go_on(body, k, n);
        assert(crate::macros::plan_laws::depth(body.take(k + n)) >= 0);
    }
    depths_go_on(body, k, body.len() - k);
    assert(rest.take(body.len() - k) =~= rest);
    assert(body.take(body.len() as int) =~= body);
}

proof fn bracket_is_closed(body: Seq<Token>, n: int) -> (m: int)
    requires
        crate::macros::plan_laws::depth(body) == 0,
        1 <= n <= body.len(),
        forall|j: int| 1 <= j <= n ==> crate::macros::plan_laws::depth(#[trigger] body.take(j)) > 0,
    ensures
        1 <= m < body.len(),
        crate::macros::plan_laws::depth(body.take(m + 1)) == 0,
        crate::macros::plan_laws::depth(body.take(m)) == 1,
        crate::macros::plan_laws::closes(body[m]),
        forall|j: int| 1 <= j <= m ==> crate::macros::plan_laws::depth(#[trigger] body.take(j)) > 0,
    decreases body.len() - n,
{
    assert(body.take(body.len() as int) =~= body);
    assert(crate::macros::plan_laws::depth(body.take(n)) > 0);
    depth_steps(body, n);
    if crate::macros::plan_laws::depth(body.take(n + 1)) <= 0 {
        n
    } else {
        bracket_is_closed(body, n + 1)
    }
}

/// Whether no token outside of all angle brackets ends a stretch.
pub open spec fn goes_on(body: Seq<Token>, stop: Stop) -> bool {
    forall|n: int|
        0 <= n < body.len() && crate::macros::plan_laws::depth(body.take(n)) == 0
            ==> !crate::macros::grammar::stops(#[trigger] body[n], stop)
}

proof fn brackets_go_on(body: Seq<Token>)
    requires
        crate::macros::plan_laws::is_balanced(body),
    ensures
        goes_on(body, Stop::Angle),
{
    assert forall|n: int|
        0 <= n < body.len() && crate::macros::plan_laws::depth(
            body.take(n),
        ) == 0 implies !crate::macros::grammar::stops(#[trigger] body[n], Stop::Angle) by {
        depth_steps(body, n);
        assert(crate::macros::plan_laws::depth(body.take(n + 1)) >= 0);
    }
}

proof fn part_stands(tokens: Seq<Token>, at: int, body: Seq<Token>, k: int, n: int)
    requires
        stand_at(tokens, at, body),
        0 <= k <= n <= body.len(),
    ensures
        stand_at(tokens, at + k, body.subrange(k, n)),
{
    let part = body.subrange(k, n);
    assert forall|i: int| 0 <= i < part.len() implies tokens[at + k + i] == #[trigger] part[i] by {
        assert(part[i] == body[k + i]);
        assert(tokens[at + (k + i)] == body[k + i]);
    }
}

proof fn rest_goes_on(body: Seq<Token>, k: int, stop: Stop)
    requires
        0 <= k <= body.len(),
        crate::macros::plan_laws::depth(body.take(k)) == 0,
        goes_on(body, stop),
    ensures
        goes_on(body.skip(k), stop),
{
    let rest = body.skip(k);
    assert forall|n: int|
        0 <= n < rest.len() && crate::macros::plan_laws::depth(
            rest.take(n),
        ) == 0 implies !crate::macros::grammar::stops(#[trigger] rest[n], stop) by {
        depths_go_on(body, k, n);
        assert(!crate::macros::grammar::stops(body[k + n], stop));
    }
}

proof fn bracketed_is_balanced(body: Seq<Token>, m: int)
    requires
        1 <= m < body.len(),
        crate::macros::plan_laws::depth(body.take(1)) == 1,
        crate::macros::plan_laws::depth(body.take(m)) == 1,
        forall|j: int| 1 <= j <= m ==> crate::macros::plan_laws::depth(#[trigger] body.take(j)) > 0,
    ensures
        crate::macros::plan_laws::is_balanced(body.subrange(1, m)),
{
    let inner = body.subrange(1, m);
    let tail = body.skip(1);
    assert forall|n: int| 0 <= n <= inner.len() implies crate::macros::plan_laws::depth(
        #[trigger] inner.take(n),
    ) >= 0 by {
        depths_go_on(body, 1, n);
        assert(tail.take(n) =~= inner.take(n));
        assert(crate::macros::plan_laws::depth(body.take(1 + n)) > 0);
    }
    depths_go_on(body, 1, m - 1);
    assert(tail.take(m - 1) =~= inner);
}

proof fn stretch_goes_on(tokens: Seq<Token>, at: int, next: int, stop: Stop)
    requires
        0 <= at < next <= tokens.len(),
        !crate::macros::grammar::stops(tokens[at], stop),
        crate::macros::grammar::tree_end(tokens, at) == next,
    ensures
        crate::macros::grammar::stretch_end(tokens, at, stop)
            == crate::macros::grammar::stretch_end(tokens, next, stop),
{
}

/// Tokens whose angle brackets match are read up to the first that ends them outside of all
/// brackets.
pub proof fn stretches_end_where_they_must(tokens: Seq<Token>, at: int, body: Seq<Token>, stop: Stop)
    requires
        stand_at(tokens, at, body),
        crate::macros::plan_laws::is_balanced(body),
        goes_on(body, stop),
        at + body.len() == tokens.len() || crate::macros::grammar::stops(
            tokens[at + body.len()],
            stop,
        ),
    ensures
        crate::macros::grammar::stretch_end(tokens, at, stop) == at + body.len(),
    decreases body.len(), 1nat,
{
    if body.len() > 0 {
        assert(crate::macros::plan_laws::depth(body.take(0)) == 0) by {
            reveal(crate::macros::plan_laws::depth);
            assert(body.take(0) =~= Seq::empty());
        }
        assert(tokens[at + 0] == body[0]);
        depth_steps(body, 0);
        assert(crate::macros::plan_laws::depth(body.take(1)) >= 0);
        let k: int = first_tree_is_read(tokens, at, body);
        rest_is_balanced(body, k);
        rest_goes_on(body, k, stop);
        part_stands(tokens, at, body, k, body.len() as int);
        assert(body.subrange(k, body.len() as int) =~= body.skip(k));
        stretches_end_where_they_must(tokens, at + k, body.skip(k), stop);
        stretch_goes_on(tokens, at, at + k, stop);
    }
}

proof fn first_tree_is_read(tokens: Seq<Token>, at: int, body: Seq<Token>) -> (k: int)
    requires
        stand_at(tokens, at, body),
        crate::macros::plan_laws::is_balanced(body),
        body.len() > 0,
    ensures
        0 < k <= body.len(),
        crate::macros::plan_laws::depth(body.take(k)) == 0,
        crate::macros::grammar::tree_end(tokens, at) == at + k,
    decreases body.len(), 0nat,
{
    assert(crate::macros::plan_laws::depth(body.take(0)) == 0) by {
        reveal(crate::macros::plan_laws::depth);
        assert(body.take(0) =~= Seq::empty());
    }
    assert(tokens[at + 0] == body[0]);
    depth_steps(body, 0);
    assert(crate::macros::plan_laws::depth(body.take(1)) >= 0);
    if crate::macros::plan_laws::opens(body[0]) {
        let m = bracket_is_closed(body, 1);
        let inner = body.subrange(1, m);
        bracketed_is_balanced(body, m);
        brackets_go_on(inner);
        part_stands(tokens, at, body, 1, m);
        assert(tokens[at + m] == body[m]);
        stretches_end_where_they_must(tokens, at + 1, inner, Stop::Angle);
        m + 1
    } else {
        1
    }
}

/// Whether tokens are an attribute: a hash and a group in square brackets.
pub open spec fn is_attribute(tokens: Seq<Token>) -> bool {
    &&& tokens.len() == 2
    &&& tokens[0].kind matches TokenKind::Punct(c, _) && c == '#'
    &&& tokens[1].kind matches TokenKind::Group(d, _) && d == Delimiter::Bracket
}

/// Attributes one behind the other.
pub open spec fn written_attributes(attrs: Seq<Seq<Token>>) -> Seq<Token>
    decreases attrs.len(),
{
    if attrs.len() == 0 {
        Seq::empty()
    } else {
        attrs[0] + written_attributes(attrs.skip(1))
    }
}

proof fn attributes_are_read(tokens: Seq<Token>, at: int, attrs: Seq<Seq<Token>>)
    requires
        forall|i: int| 0 <= i < attrs.len() ==> is_attribute(#[trigger] attrs[i]),
        stand_at(tokens, at, written_attributes(attrs)),
        at + written_attributes(attrs).len() < tokens.len(),
        tokens[at + written_attributes(attrs).len()].kind is Ident,
    ensures
        crate::macros::grammar::attributes_end(tokens, at) == at + written_attributes(attrs).len(),
        crate::macros::grammar::attributes_from(tokens, at) == attrs,
    decreases attrs.len(),
{
    let written = written_attributes(attrs);
    if attrs.len() == 0 {
        assert(crate::macros::grammar::attributes_from(tokens, at) =~= attrs);
    } else {
        let others = attrs.skip(1);
        let rest = written_attributes(others);
        assert(is_attribute(attrs[0]));
        assert(written[0] == attrs[0][0] && written[1] == attrs[0][1]);
        assert(tokens[at + 0] == written[0] && tokens[at + 1] == written[1]);
        assert(crate::macros::grammar::attribute_at(tokens, at));
        assert forall|i: int| 0 <= i < others.len() implies is_attribute(#[trigger] others[i]) by {
            assert(is_attribute(attrs[i + 1]));
        }
        assert forall|i: int| 0 <= i < rest.len() implies tokens[at + 2 + i] == #[trigger] rest[i] by {
            assert(written[2 + i] == rest[i]);
            assert(tokens[at + (2 + i)] == written[2 + i]);
        }
        attributes_are_read(tokens, at + 2, others);
        assert(tokens.subrange(at, at + 2) =~= attrs[0]);
        assert(crate::macros::grammar::attributes_from(tokens, at) =~= attrs);
    }
}

/// Whether tokens are the word `pub`, or nothing.
pub open spec fn is_visibility(tokens: Seq<Token>) -> bool {
    tokens.len() == 0 || tokens.len() == 1 && crate::macros::token::is_word(tokens[0], "pub"@)
}

/// Whether tokens are the type of a field or parameter: something whose angle brackets match, with no
/// comma outside of them.
pub open spec fn is_type(tokens: Seq<Token>) -> bool {
    &&& tokens.len() > 0
    &&& crate::macros::plan_laws::is_balanced(tokens)
    &&& goes_on(tokens, Stop::Comma)
}

/// Whether a field can be written down.
pub open spec fn is_field(field: FieldView) -> bool {
    &&& forall|i: int| 0 <= i < field.attrs.len() ==> is_attribute(#[trigger] field.attrs[i])
    &&& is_visibility(field.vis)
    &&& field.name.kind is Ident
    &&& !crate::macros::token::is_word(field.name, "pub"@)
    &&& is_type(field.ty)
}

/// A field as it is written.
pub open spec fn written_field(field: FieldView, colon: Token) -> Seq<Token> {
    written_attributes(field.attrs) + field.vis + seq![field.name, colon] + field.ty
}

/// Fields as they are written, with a comma behind each but the last.
pub open spec fn written_fields(fields: Seq<FieldView>, colon: Token, comma: Token) -> Seq<Token>
    decreases fields.len(),
{
    if fields.len() == 0 {
        Seq::empty()
    } else if fields.len() == 1 {
        written_field(fields[0], colon)
    } else {
        written_field(fields[0], colon) + seq![comma] + written_fields(
            fields.skip(1),
            colon,
            comma,
        )
    }
}

proof fn one_field_is_read(tokens: Seq<Token>, at: int, field: FieldView, colon: Token)
    requires
        is_field(field),
        crate::macros::token::is_punct(colon, ':'),
        stand_at(tokens, at, written_field(field, colon)),
        ({
            let end = at + written_field(field, colon).len();
            end == tokens.len() || crate::macros::token::is_punct(tokens[end], ',')
        }),
    ensures
        crate::macros::grammar::field_end(tokens, at) == at + written_field(field, colon).len(),
        crate::macros::grammar::field_at(tokens, at) == field,
{
    let attrs = written_attributes(field.attrs);
    let written = written_field(field, colon);
    let a = attrs.len() as int;
    let v = field.vis.len() as int;
    let end = at + written.len();
    assert forall|i: int| 0 <= i < attrs.len() implies tokens[at + i] == #[trigger] attrs[i] by {
        assert(written[i] == attrs[i]);
    }
    assert(v == 1 ==> written[a] == field.vis[0]);
    assert(written[a + v] == field.name);
    assert(written[a + v + 1] == colon);
    assert(tokens[at + (a + v)] == written[a + v]);
    assert(tokens[at + (a + v + 1)] == written[a + v + 1]);
    assert(v == 1 ==> tokens[at + a] == written[a]);
    attributes_are_read(tokens, at, field.attrs);
    let name = at + a + v;
    assert(crate::macros::grammar::field_name_at(tokens, at) == name);
    assert forall|i: int| 0 <= i < field.ty.len() implies tokens[name + 2 + i]
        == #[trigger] field.ty[i] by {
        assert(written[a + v + 2 + i] == field.ty[i]);
        assert(tokens[at + (a + v + 2 + i)] == written[a + v + 2 + i]);
    }
    stretches_end_where_they_must(tokens, name + 2, field.ty, Stop::Comma);
    assert(tokens.subrange(at + a, name) =~= field.vis);
    assert(tokens.subrange(name + 2, end) =~= field.ty);
}

proof fn fields_are_read_from(
    tokens: Seq<Token>,
    at: int,
    fields: Seq<FieldView>,
    colon: Token,
    comma: Token,
    trailing: bool,
)
    requires
        forall|i: int| 0 <= i < fields.len() ==> is_field(#[trigger] fields[i]),
        crate::macros::token::is_punct(colon, ':'),
        crate::macros::token::is_punct(comma, ','),
        fields.len() > 0,
        stand_at(tokens, at, written_fields(fields, colon, comma)),
        trailing ==> at + written_fields(fields, colon, comma).len() + 1 == tokens.len()
            && crate::macros::token::is_punct(tokens[tokens.len() - 1], ','),
        !trailing ==> at + written_fields(fields, colon, comma).len() == tokens.len(),
    ensures
        crate::macros::grammar::fields_from(tokens, at) == (fields, tokens.len() as int),
    decreases fields.len(),
{
    reveal_with_fuel(crate::macros::grammar::fields_from, 2);
    let written = written_fields(fields, colon, comma);
    let first = written_field(fields[0], colon);
    assert(is_field(fields[0]));
    assert forall|i: int| 0 <= i < first.len() implies tokens[at + i] == #[trigger] first[i] by {
        assert(written[i] == first[i]);
    }
    if fields.len() == 1 {
        one_field_is_read(tokens, at, fields[0], colon);
        if trailing {
            let n = tokens.len() as int;
            assert(crate::macros::grammar::fields_from(tokens, n).1 == n) by {
                reveal_with_fuel(crate::macros::grammar::attributes_end, 1);
            }
            assert(crate::macros::grammar::fields_from(tokens, n).0 =~= Seq::empty());
        }
        assert(seq![fields[0]] + Seq::<FieldView>::empty() =~= fields);
        assert(seq![fields[0]] =~= fields);
    } else {
        let others = fields.skip(1);
        let rest = written_fields(others, colon, comma);
        assert(written[first.len() as int] == comma);
        assert(tokens[at + first.len()] == written[first.len() as int]);
        one_field_is_read(tokens, at, fields[0], colon);
        let next = at + first.len() + 1;
        assert forall|i: int| 0 <= i < rest.len() implies tokens[next + i] == #[trigger] rest[i] by {
            assert(written[first.len() + 1 + i] == rest[i]);
            assert(tokens[at + (first.len() + 1 + i)] == written[first.len() + 1 + i]);
        }
        assert forall|i: int| 0 <= i < others.len() implies is_field(#[trigger] others[i]) by {
            assert(is_field(fields[i + 1]));
        }
        fields_are_read_from(tokens, next, others, colon, comma, trailing);
        assert(seq![fields[0]] + others =~= fields);
    }
}

/// The fields of a struct are read as they are written: all of them, in order, with their attributes,
/// visibilities, names and types, with or without a comma behind the last.
pub proof fn written_fields_are_read(fields: Seq<FieldView>, colon: Token, comma: Token)
    requires
        forall|i: int| 0 <= i < fields.len() ==> is_field(#[trigger] fields[i]),
        crate::macros::token::is_punct(colon, ':'),
        crate::macros::token::is_punct(comma, ','),
    ensures
        ({
            let tokens = written_fields(fields, colon, comma);
            &&& crate::macros::grammar::fields_from(tokens, 0) == (fields, tokens.len() as int)
            &&& fields.len() > 0 ==> crate::macros::grammar::fields_from(tokens.push(comma), 0) == (
                fields,
                tokens.len() as int + 1,
            )
        }),
{
    let tokens = written_fields(fields, colon, comma);
    if fields.len() == 0 {
        assert(crate::macros::grammar::fields_from(tokens, 0).0 =~= fields);
    } else {
        fields_are_read_from(tokens, 0, fields, colon, comma, false);
        assert(tokens.push(comma)[tokens.len() as int] == comma);
        fields_are_read_from(tokens.push(comma), 0, fields, colon, comma, true);
    }
}

/// Whether tokens are generics: nothing, or something between angle brackets.
pub open spec fn is_generics(tokens: Seq<Token>) -> bool {
    tokens.len() == 0 || tokens.len() > 2 && crate::macros::plan_laws::opens(tokens[0])
        && crate::macros::plan_laws::closes(tokens[tokens.len() - 1])
        && crate::macros::plan_laws::is_balanced(tokens.subrange(1, tokens.len() - 1))
}

proof fn generics_are_read(tokens: Seq<Token>, at: int, generics: Seq<Token>)
    requires
        is_generics(generics),
        stand_at(tokens, at, generics),
        at + generics.len() < tokens.len(),
        tokens[at + generics.len()].kind is Group,
    ensures
        crate::macros::grammar::generics_end(tokens, at) == at + generics.len(),
{
    if generics.len() > 0 {
        let inner = generics.subrange(1, generics.len() - 1);
        assert(tokens[at + 0] == generics[0]);
        assert(tokens[at + (generics.len() - 1)] == generics[generics.len() - 1]);
        assert forall|i: int| 0 <= i < inner.len() implies tokens[at + 1 + i] == #[trigger] inner[i] by {
            assert(inner[i] == generics[1 + i]);
            assert(tokens[at + (1 + i)] == generics[1 + i]);
        }
        brackets_go_on(inner);
        stretches_end_where_they_must(tokens, at + 1, inner, Stop::Angle);
    }
}

/// A struct as it is written.
pub open spec fn written_struct(view: StructView, word: Token, fields: Token) -> Seq<Token> {
    written_attributes(view.attrs) + view.vis + seq![word, view.name] + view.generics + seq![fields]
}

/// A struct is read as it is written, with its attributes, visibility, name, generics and fields.
pub proof fn written_structs_are_read(
    view: StructView,
    word: Token,
    group: Token,
    colon: Token,
    comma: Token,
)
    requires
        forall|i: int| 0 <= i < view.attrs.len() ==> is_attribute(#[trigger] view.attrs[i]),
        is_visibility(view.vis),
        crate::macros::token::is_word(word, "struct"@),
        view.name.kind is Ident,
        is_generics(view.generics),
        forall|i: int| 0 <= i < view.fields.len() ==> is_field(#[trigger] view.fields[i]),
        crate::macros::token::is_punct(colon, ':'),
        crate::macros::token::is_punct(comma, ','),
        group.kind matches TokenKind::Group(d, inner) && d == Delimiter::Brace && inner@
            == written_fields(view.fields, colon, comma),
    ensures
        crate::macros::grammar::struct_in(written_struct(view, word, group)) == Some(view),
{
    reveal_strlit("pub");
    reveal_strlit("struct");
    let tokens = written_struct(view, word, group);
    let attrs = written_attributes(view.attrs);
    let a = attrs.len() as int;
    let v = view.vis.len() as int;
    let g = view.generics.len() as int;
    assert forall|i: int| 0 <= i < attrs.len() implies tokens[0 + i] == #[trigger] attrs[i] by {}
    assert(v == 1 ==> tokens[a] == view.vis[0]);
    assert(tokens[a + v] == word);
    assert(tokens[a + v + 1] == view.name);
    assert(tokens[a + v + 2 + g] == group);
    attributes_are_read(tokens, 0, view.attrs);
    assert("pub"@.len() != "struct"@.len());
    assert(!crate::macros::token::is_word(word, "pub"@));
    assert forall|i: int| 0 <= i < g implies tokens[a + v + 2 + i] == #[trigger] view.generics[i] by {}
    generics_are_read(tokens, a + v + 2, view.generics);
    written_fields_are_read(view.fields, colon, comma);
    assert(tokens.subrange(a, a + v) =~= view.vis);
    assert(tokens.subrange(a + v + 2, a + v + 2 + g) =~= view.generics);
}

/// Whether a parameter can be written down.
pub open spec fn is_param(param: ParamView) -> bool {
    param.0.kind is Ident && is_type(param.1)
}

/// Parameters as they are written, with a comma behind each but the last.
pub open spec fn written_params(params: Seq<ParamView>, colon: Token, comma: Token) -> Seq<Token>
    decreases params.len(),
{
    if params.len() == 0 {
        Seq::empty()
    } else if params.len() == 1 {
        seq![params[0].0, colon] + params[0].1
    } else {
        seq![params[0].0, colon] + params[0].1 + seq![comma] + written_params(
            params.skip(1),
            colon,
            comma,
        )
    }
}

proof fn one_param_is_read(tokens: Seq<Token>, at: int, param: ParamView, colon: Token)
    requires
        is_param(param),
        crate::macros::token::is_punct(colon, ':'),
        0 <= at,
        at + 2 + param.1.len() <= tokens.len(),
        tokens[at] == param.0,
        tokens[at + 1] == colon,
        stand_at(tokens, at + 2, param.1),
        ({
            let end = at + 2 + param.1.len();
            end == tokens.len() || crate::macros::token::is_punct(tokens[end], ',')
        }),
    ensures
        crate::macros::grammar::param_end(tokens, at) == at + 2 + param.1.len(),
        tokens.subrange(at + 2, at + 2 + param.1.len()) == param.1,
{
    let ty = param.1;
    assert(tokens.subrange(at + 2, at + 2 + ty.len()) =~= ty);
    assert(crate::macros::grammar::stretch_end(tokens, at + 2, Stop::Comma) == at + 2 + ty.len())
        by {
        stretches_end_where_they_must(tokens, at + 2, ty, Stop::Comma);
    }
}

proof fn params_are_read_from(
    tokens: Seq<Token>,
    at: int,
    params: Seq<ParamView>,
    colon: Token,
    comma: Token,
)
    requires
        forall|i: int| 0 <= i < params.len() ==> is_param(#[trigger] params[i]),
        crate::macros::token::is_punct(colon, ':'),
        crate::macros::token::is_punct(comma, ','),
        params.len() > 0,
        stand_at(tokens, at, written_params(params, colon, comma)),
        at + written_params(params, colon, comma).len() == tokens.len(),
    ensures
        crate::macros::grammar::params_from(tokens, at) == params,
    decreases params.len(),
{
    let written = written_params(params, colon, comma);
    let ty = params[0].1;
    let n = 2 + ty.len() as int;
    assert(is_param(params[0]));
    assert(written[0] == params[0].0 && written[1] == colon);
    assert(tokens[at + 0] == written[0] && tokens[at + 1] == written[1]);
    part_stands(tokens, at, written, 2, n);
    assert(written.subrange(2, n) =~= ty);
    if params.len() == 1 {
        one_param_is_read(tokens, at, params[0], colon);
        assert(crate::macros::grammar::params_from(tokens, at) == seq![params[0]]);
        assert(seq![params[0]] =~= params);
    } else {
        let others = params.skip(1);
        let rest = written_params(others, colon, comma);
        assert(written[n] == comma);
        assert(tokens[at + n] == written[n]);
        one_param_is_read(tokens, at, params[0], colon);
        part_stands(tokens, at, written, n + 1, written.len() as int);
        assert(written.subrange(n + 1, written.len() as int) =~= rest);
        assert forall|i: int| 0 <= i < others.len() implies is_param(#[trigger] others[i]) by {
            assert(is_param(params[i + 1]));
        }
        params_are_read_from(tokens, at + n + 1, others, colon, comma);
        assert(crate::macros::grammar::params_from(tokens, at) == seq![params[0]] + others);
        assert(seq![params[0]] + others =~= params);
    }
}

/// The parameters of a function are read as they are written: all of them, in order, with their names
/// and types.
pub proof fn written_params_are_read(params: Seq<ParamView>, colon: Token, comma: Token)
    requires
        forall|i: int| 0 <= i < params.len() ==> is_param(#[trigger] params[i]),
        crate::macros::token::is_punct(colon, ':'),
        crate::macros::token::is_punct(comma, ','),
    ensures
        crate::macros::grammar::params_from(written_params(params, colon, comma), 0) == params,
{
    let tokens = written_params(params, colon, comma);
    if params.len() == 0 {
        assert(crate::macros::grammar::params_from(tokens, 0) =~= params);
    } else {
        params_are_read_from(tokens, 0, params, colon, comma);
    }
}

/// The words that a function is written with.
pub ghost struct FnWords {
    /// `async`
    pub async_word: Token,
    /// `fn`
    pub fn_word: Token,
    /// The parameters.
    pub params: Token,
    /// `-`
    pub dash: Token,
    /// `>`
    pub angle: Token,
    /// `:`
    pub colon: Token,
    /// `,`
    pub comma: Token,
}

/// Whether these are the words that a function with such parameters is written with.
pub open spec fn are_words_for(words: FnWords, params: Seq<ParamView>) -> bool {
    &&& crate::macros::token::is_word(words.async_word, "async"@)
    &&& crate::macros::token::is_word(words.fn_word, "fn"@)
    &&& words.dash.kind == TokenKind::Punct('-', true)
    &&& crate::macros::token::is_punct(words.angle, '>')
    &&& crate::macros::token::is_punct(words.colon, ':')
    &&& crate::macros::token::is_punct(words.comma, ',')
    &&& words.params.kind matches TokenKind::Group(d, inner) && d == Delimiter::Parenthesis
        && inner@ == written_params(params, words.colon, words.comma)
}

/// A function as it is written.
pub open spec fn written_fn(view: FnItemView, words: FnWords) -> Seq<Token> {
    let start = if view.is_async {
        seq![words.async_word]
    } else {
        Seq::empty()
    };
    let result = match view.return_type {
        Some(ty) => seq![words.dash, words.angle] + ty,
        None => Seq::empty(),
    };
    written_attributes(view.attrs) + view.vis + start + seq![words.fn_word, view.name]
        + view.generics + seq![words.params] + result + seq![view.body]
}

proof fn return_type_is_read(tokens: Seq<Token>, at: int, result: Seq<Token>, ty: Option<Seq<Token>>)
    requires
        match ty {
            Some(ty) => {
                &&& result.len() == ty.len() + 2
                &&& result[0].kind == TokenKind::Punct('-', true)
                &&& crate::macros::token::is_punct(result[1], '>')
                &&& result.skip(2) == ty
                &&& ty.len() > 0
                &&& crate::macros::plan_laws::is_balanced(ty)
                &&& goes_on(ty, Stop::Brace)
            },
            None => result.len() == 0,
        },
        stand_at(tokens, at, result),
        at + result.len() + 1 == tokens.len(),
        tokens[at + result.len()].kind matches TokenKind::Group(d, _) && d == Delimiter::Brace,
    ensures
        crate::macros::grammar::return_end(tokens, at) == at + result.len(),
        ty matches Some(ty) ==> tokens.subrange(at + 2, at + result.len()) == ty,
{
    if let Some(ty) = ty {
        assert(tokens[at + 0] == result[0] && tokens[at + 1] == result[1]);
        part_stands(tokens, at, result, 2, result.len() as int);
        assert(result.subrange(2, result.len() as int) =~= ty);
        assert(tokens.subrange(at + 2, at + result.len()) =~= ty);
        assert(crate::macros::grammar::stretch_end(tokens, at + 2, Stop::Brace) == at + 2 + ty.len())
            by {
            stretches_end_where_they_must(tokens, at + 2, ty, Stop::Brace);
        }
    }
}

/// A function is read as it is written, with its attributes, visibility, name, generics, parameters,
/// return type and body, and with whether it is asynchronous.
pub proof fn written_functions_are_read(view: FnItemView, words: FnWords)
    requires
        forall|i: int| 0 <= i < view.attrs.len() ==> is_attribute(#[trigger] view.attrs[i]),
        is_visibility(view.vis),
        view.name.kind is Ident,
        is_generics(view.generics),
        forall|i: int| 0 <= i < view.params.len() ==> is_param(#[trigger] view.params[i]),
        view.return_type matches Some(ty) ==> ty.len() > 0
            && crate::macros::plan_laws::is_balanced(ty) && goes_on(ty, Stop::Brace),
        view.body.kind matches TokenKind::Group(d, _) && d == Delimiter::Brace,
        are_words_for(words, view.params),
    ensures
        crate::macros::grammar::fn_in(written_fn(view, words)) == Some(view),
{
    reveal_strlit("pub");
    reveal_strlit("async");
    reveal_strlit("fn");
    let tokens = written_fn(view, words);
    let attrs = written_attributes(view.attrs);
    let a = attrs.len() as int;
    let v = view.vis.len() as int;
    let s: int = if view.is_async {
        1
    } else {
        0
    };
    let g = view.generics.len() as int;
    let f = a + v + s;
    let p = f + 2 + g;
    let result = match view.return_type {
        Some(ty) => seq![words.dash, words.angle] + ty,
        None => Seq::empty(),
    };
    let b = p + 1 + result.len();
    assert forall|i: int| 0 <= i < attrs.len() implies tokens[0 + i] == #[trigger] attrs[i] by {}
    assert(v == 1 ==> tokens[a] == view.vis[0]);
    assert(view.is_async ==> tokens[a + v] == words.async_word);
    assert(tokens[f] == words.fn_word);
    assert(tokens[f + 1] == view.name);
    assert(tokens[p] == words.params);
    assert(tokens[b] == view.body);
    assert(tokens.len() == b + 1);
    attributes_are_read(tokens, 0, view.attrs);
    assert("pub"@.len() == 3 && "async"@.len() == 5 && "fn"@.len() == 2);
    assert(!crate::macros::token::is_word(words.fn_word, "pub"@));
    assert(!crate::macros::token::is_word(words.fn_word, "async"@));
    assert(!crate::macros::token::is_word(words.async_word, "pub"@));
    assert forall|i: int| 0 <= i < g implies tokens[f + 2 + i] == #[trigger] view.generics[i] by {}
    generics_are_read(tokens, f + 2, view.generics);
    written_params_are_read(view.params, words.colon, words.comma);
    assert forall|i: int| 0 <= i < result.len() implies tokens[p + 1 + i] == #[trigger] result[i] by {}
    if let Some(ty) = view.return_type {
        assert(result.skip(2) =~= ty);
    }
    return_type_is_read(tokens, p + 1, result, view.return_type);
    let at = crate::macros::grammar::fn_places(tokens);
    assert(at.fn_word == f && at.params == p && at.body == b);
    assert(tokens.subrange(a, a + v) =~= view.vis);
    assert(tokens.subrange(f + 2, p) =~= view.generics);
}

/// Whether the first word in an attribute is a certain one.
pub open spec fn starts_with_word(attribute: Seq<Token>, word: Seq<char>) -> bool {
    attribute[1].kind matches TokenKind::Group(_, inner) && inner@.len() > 0 && (
    inner@[0].kind matches TokenKind::Ident(text) && text@ == word)
}

/// Whether a word is all that is in an attribute.
pub open spec fn is_only_word(attribute: Seq<Token>, word: Seq<char>) -> bool {
    starts_with_word(attribute, word) && crate::macros::token::inside(attribute[1]).len() == 1
}

/// The attributes of a function are parted into those that document it and all others, each in their
/// order; those of a struct and of its fields likewise. A field is the key if and only if it has the
/// attribute that says so, which is the only one that it loses.
pub proof fn attributes_are_parted(
    function: FnItem,
    function_view: FnItemView,
    item: StructItem,
    view: StructView,
    i: int,
)
    requires
        crate::macros::grammar::fn_item_is(function, function_view),
        crate::macros::grammar::struct_item_is(item, view),
        0 <= i < view.fields.len(),
    ensures
        crate::macros::grammar::token_lists(function.doc_attrs@) == function_view.attrs.filter(
            |a: Seq<Token>| starts_with_word(a, "doc"@),
        ),
        crate::macros::grammar::token_lists(function.other_attrs@) == function_view.attrs.filter(
            |a: Seq<Token>| !starts_with_word(a, "doc"@),
        ),
        crate::macros::grammar::token_lists(item.doc_attrs@) == view.attrs.filter(
            |a: Seq<Token>| starts_with_word(a, "doc"@),
        ),
        item.fields@.len() == view.fields.len(),
        item.fields@[i].name == view.fields[i].name,
        item.fields@[i].vis@ == view.fields[i].vis,
        item.fields@[i].ty@ == view.fields[i].ty,
        item.fields@[i].is_key <==> exists|n: int|
            0 <= n < view.fields[i].attrs.len() && is_only_word(
                #[trigger] view.fields[i].attrs[n],
                "key"@,
            ),
        crate::macros::grammar::token_lists(item.fields@[i].attrs@) == view.fields[i].attrs.filter(
            |a: Seq<Token>| !is_only_word(a, "key"@),
        ),
{
    let doc = |a: Seq<Token>| starts_with_word(a, "doc"@);
    let other = |a: Seq<Token>| !starts_with_word(a, "doc"@);
    let kept = |a: Seq<Token>| !is_only_word(a, "key"@);
    filters_agree(
        function_view.attrs,
        |a: Seq<Token>| crate::macros::grammar::is_doc(a) == true,
        doc,
    );
    filters_agree(
        function_view.attrs,
        |a: Seq<Token>| crate::macros::grammar::is_doc(a) == false,
        other,
    );
    filters_agree(view.attrs, |a: Seq<Token>| crate::macros::grammar::is_doc(a) == true, doc);
    let field = view.fields[i];
    assert(crate::macros::grammar::field_is(item.fields@[i], field));
    filters_agree(field.attrs, |a: Seq<Token>| !crate::macros::grammar::is_key(a), kept);
    assert forall|n: int| 0 <= n < field.attrs.len() implies crate::macros::grammar::is_key(
        #[trigger] field.attrs[n],
    ) == is_only_word(field.attrs[n], "key"@) by {}
}

proof fn filters_agree(
    lists: Seq<Seq<Token>>,
    p: spec_fn(Seq<Token>) -> bool,
    q: spec_fn(Seq<Token>) -> bool,
)
    requires
        forall|a: Seq<Token>| #[trigger] p(a) == q(a),
    ensures
        lists.filter(p) == lists.filter(q),
    decreases lists.len(),
{
    reveal(Seq::filter);
    if lists.len() > 0 {
        filters_agree(lists.drop_last(), p, q);
    }
}

} // verus!
