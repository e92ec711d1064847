//! Plans for the items that are generated for inputs, interned structs and tracked functions.
use crate::macros::grammar::{FnItem, Param, StructItem};
#[allow(unused_imports)]
use crate::macros::grammar::{FieldView, ParamView};
use crate::macros::names::{
    input_names, interned_names, tracked_names, InputNames, InternedNames, TrackedNames,
};
use crate::macros::token::{copy_tokens, same_text, Delimiter, Token, TokenKind};
#[allow(unused_imports)]
use crate::macros::types::DbGeneric;
use crate::macros::types::{parse_db_generic, strip_ref_inner_ident, take_return_ok_type};
use std::sync::Arc;
use vstd::prelude::*;

verus! {

/// What is generated for an input.
#[derive(Debug)]
pub struct InputPlan {
    /// The struct.
    pub item: StructItem,
    /// Place of the key among the fields. An input without a key is a singleton.
    pub key: Option<usize>,
    /// How everything is called.
    pub names: InputNames,
}

/// Whether two fields are marked as the key.
pub open spec fn two_keys(fields: Seq<FieldView>) -> bool {
    exists|i: int, j: int|
        0 <= i < j < fields.len() && crate::macros::grammar::has_key((#[trigger] fields[i]).attrs)
            && crate::macros::grammar::has_key((#[trigger] fields[j]).attrs)
}

/// Whether `key` is the place of the field that is marked as the key, or nothing where none is.
pub open spec fn is_key_place(fields: Seq<FieldView>, key: Option<usize>) -> bool {
    match key {
        Some(i) => i < fields.len() && crate::macros::grammar::has_key(fields[i as int].attrs),
        None => forall|i: int|
            0 <= i < fields.len() ==> !crate::macros::grammar::has_key(
                (#[trigger] fields[i]).attrs,
            ),
    }
}

/// Whether the plan for an input came out as it must.
pub open spec fn input_planned(tokens: Seq<Token>, r: Result<InputPlan, String>) -> bool {
    match crate::macros::grammar::struct_in(tokens) {
        None => r matches Err(e) && e@ == crate::macros::grammar::not_a_struct(),
        Some(view) => if view.generics.len() > 0 {
            r matches Err(e) && e@ == "picante: #[picante::input] does not support generics"@
        } else if two_keys(view.fields) {
            r matches Err(e) && e@
                == "picante: #[picante::input] requires exactly one field marked #[key]"@
        } else {
            &&& r matches Ok(plan)
            &&& crate::macros::grammar::struct_item_is(plan.item, view)
            &&& is_key_place(view.fields, plan.key)
            &&& ({
                let name = crate::macros::token::ident_text(view.name);
                let snake = crate::macros::names::snake_case_of(name);
                crate::macros::names::input_named(
                    plan.names,
                    name,
                    snake,
                    crate::macros::names::uppercase_of(snake),
                )
            })
        },
    }
}

/// Plan what is generated for an input.
pub fn plan_input(tokens: &[Token]) -> (r: Result<InputPlan, String>)
    ensures
        input_planned(tokens@, r),
{
    let item = match StructItem::parse(tokens) {
        Ok(item) => item,
        Err(message) => {
            return Err(message);
        },
    };
    if item.generics.len() > 0 {
        return Err("picante: #[picante::input] does not support generics".to_owned());
    }
    let ghost fields = crate::macros::grammar::struct_in(tokens@)->0.fields;
    let mut key: Option<usize> = None;
    let mut i: usize = 0;
    while i < item.fields.len()
        invariant
            i <= item.fields@.len(),
            item.fields@.len() == fields.len(),
            crate::macros::grammar::struct_in(tokens@) matches Some(view) && view.fields == fields
                && view.generics.len() == 0,
            forall|j: int|
                0 <= j < fields.len() ==> crate::macros::grammar::field_is(
                    #[trigger] item.fields@[j],
                    fields[j],
                ),
            match key {
                Some(k) => {
                    &&& k < i
                    &&& crate::macros::grammar::has_key(fields[k as int].attrs)
                    &&& forall|j: int|
                        0 <= j < i && j != k ==> !crate::macros::grammar::has_key(
                            (#[trigger] fields[j]).attrs,
                        )
                },
                None => forall|j: int|
                    0 <= j < i ==> !crate::macros::grammar::has_key((#[trigger] fields[j]).attrs),
            },
        decreases item.fields@.len() - i,
    {
        assert(crate::macros::grammar::field_is(item.fields@[i as int], fields[i as int]));
        if item.fields[i].is_key {
            if let Some(k) = key {
                assert(crate::macros::grammar::has_key(fields[k as int].attrs));
                assert(crate::macros::grammar::has_key(fields[i as int].attrs));
                assert(two_keys(fields));
                return Err(
                    "picante: #[picante::input] requires exactly one field marked #[key]".to_owned(),
                );
            }
            key = Some(i);
        }
        i = i + 1;
    }
    let name: String = item.name.ident_text();
    let names: InputNames = input_names(name.as_str());
    Ok(InputPlan { item, key, names })
}

/// What is generated for an interned struct.
#[derive(Debug)]
pub struct InternedPlan {
    /// The struct.
    pub item: StructItem,
    /// How everything is called.
    pub names: InternedNames,
}

/// Whether the plan for an interned struct came out as it must.
pub open spec fn interned_planned(tokens: Seq<Token>, r: Result<InternedPlan, String>) -> bool {
    match crate::macros::grammar::struct_in(tokens) {
        None => r matches Err(e) && e@ == crate::macros::grammar::not_a_struct(),
        Some(view) => if view.generics.len() > 0 {
            r matches Err(e) && e@ == "picante: #[picante::interned] does not support generics"@
        } else {
            &&& r matches Ok(plan)
            &&& crate::macros::grammar::struct_item_is(plan.item, view)
            &&& ({
                let name = crate::macros::token::ident_text(view.name);
                let snake = crate::macros::names::snake_case_of(name);
                crate::macros::names::interned_named(
                    plan.names,
                    name,
                    snake,
                    crate::macros::names::uppercase_of(snake),
                )
            })
        },
    }
}

/// Plan what is generated for an interned struct.
pub fn plan_interned(tokens: &[Token]) -> (r: Result<InternedPlan, String>)
    ensures
        interned_planned(tokens@, r),
{
    let item = match StructItem::parse(tokens) {
        Ok(item) => item,
        Err(message) => {
            return Err(message);
        },
    };
    if item.generics.len() > 0 {
        return Err("picante: #[picante::interned] does not support generics".to_owned());
    }
    let name: String = item.name.ident_text();
    let names: InternedNames = interned_names(name.as_str());
    Ok(InternedPlan { item, names })
}

/// The key of a tracked function: its type, and the expression that makes one of the arguments,
/// which is also the pattern that takes it apart.
#[derive(Debug)]
pub struct QueryKey {
    /// The type.
    pub key_type: Vec<Token>,
    /// The expression and pattern.
    pub value: Vec<Token>,
}

/// A comma.
pub open spec fn comma(span: usize) -> Token {
    Token { kind: TokenKind::Punct(',', false), span }
}

/// Token lists with commas between them.
pub open spec fn separated(lists: Seq<Seq<Token>>, span: usize) -> Seq<Token>
    decreases lists.len(),
{
    if lists.len() == 0 {
        Seq::empty()
    } else if lists.len() == 1 {
        lists[0]
    } else {
        separated(lists.drop_last(), span).push(comma(span)) + lists.last()
    }
}

/// Whether tokens are one group in parentheses with the given tokens inside.
pub open spec fn is_tuple(tokens: Seq<Token>, content: Seq<Token>) -> bool {
    &&& tokens.len() == 1
    &&& crate::macros::token::is_group(tokens[0], Delimiter::Parenthesis)
    &&& crate::macros::token::inside(tokens[0]) == content
}

/// The types of parameters.
pub open spec fn param_types(params: Seq<ParamView>) -> Seq<Seq<Token>> {
    params.map_values(|p: ParamView| p.1)
}

/// The names of parameters.
pub open spec fn param_names(params: Seq<ParamView>) -> Seq<Seq<Token>> {
    params.map_values(|p: ParamView| seq![p.0])
}

/// Whether a key is the one for the parameters after `db`: nothing for none, the parameter itself
/// for one, and a tuple for several.
pub open spec fn is_key_of(key: QueryKey, params: Seq<ParamView>) -> bool {
    if params.len() == 1 {
        key.key_type@ == params[0].1 && key.value@ == seq![params[0].0]
    } else {
        exists|span: usize|
            {
                &&& is_tuple(key.key_type@, #[trigger] separated(param_types(params), span))
                &&& is_tuple(key.value@, separated(param_names(params), span))
            }
    }
}

fn push_separated(out: &mut Vec<Token>, more: &[Token], first: bool, span: usize)
    ensures
        final(out)@ == (if first {
            old(out)@ + more@
        } else {
            old(out)@.push(comma(span)) + more@
        }),
{
    if !first {
        out.push(Token { kind: TokenKind::Punct(',', false), span });
    }
    let ghost start = out@;
    let mut i: usize = 0;
    while i < more.len()
        invariant
            i <= more@.len(),
            out@ == start + more@.take(i as int),
        decreases more@.len() - i,
    {
        out.push(more[i].clone());
        assert(out@ =~= start + more@.take(i + 1));
        i = i + 1;
    }
    assert(more@.take(i as int) =~= more@);
}

fn tuple_of(content: Vec<Token>, span: usize) -> (r: Vec<Token>)
    ensures
        is_tuple(r@, content@),
{
    let mut r: Vec<Token> = Vec::new();
    r.push(Token { kind: TokenKind::Group(Delimiter::Parenthesis, Arc::new(content)), span });
    r
}

/// The key for the parameters of a tracked function after the first `skip`.
fn build_key(params: &Vec<Param>, skip: usize, span: usize) -> (r: QueryKey)
    requires
        skip <= params@.len(),
    ensures
        is_key_of(r, crate::macros::grammar::param_views(params@).skip(skip as int)),
{
    let ghost views = crate::macros::grammar::param_views(params@).skip(skip as int);
    if params.len() - skip == 1 {
        let param: &Param = &params[skip];
        let key_type: Vec<Token> = copy_tokens(
            param.param_type.as_slice(),
            0,
            param.param_type.len(),
        );
        let mut value: Vec<Token> = Vec::new();
        value.push(param.name.clone());
        assert(key_type@ =~= views[0].1);
        assert(value@ =~= seq![views[0].0]);
        return QueryKey { key_type, value };
    }
    let ghost types = param_types(views);
    let ghost names = param_names(views);
    let mut type_tokens: Vec<Token> = Vec::new();
    let mut name_tokens: Vec<Token> = Vec::new();
    let mut i: usize = skip;
    assert(types.take(0) =~= Seq::empty());
    assert(names.take(0) =~= Seq::empty());
    while i < params.len()
        invariant
            skip <= i <= params@.len(),
            views == crate::macros::grammar::param_views(params@).skip(skip as int),
            types == param_types(views),
            names == param_names(views),
            type_tokens@ == separated(types.take(i - skip), span),
            name_tokens@ == separated(names.take(i - skip), span),
        decreases params@.len() - i,
    {
        let param: &Param = &params[i];
        let ghost n = i - skip;
        proof {
            assert(views[n] == param@);
            assert(types.take(n + 1).drop_last() =~= types.take(n));
            assert(names.take(n + 1).drop_last() =~= names.take(n));
            assert(types.take(n + 1).last() == param.param_type@);
            assert(names.take(n + 1).last() == seq![param.name]);
            if n == 0 {
                assert(types.take(1)[0] == param.param_type@);
                assert(names.take(1)[0] == seq![param.name]);
            }
        }
        push_separated(&mut type_tokens, param.param_type.as_slice(), i == skip, span);
        let mut name: Vec<Token> = Vec::new();
        name.push(param.name.clone());
        assert(name@ =~= seq![param.name]);
        push_separated(&mut name_tokens, name.as_slice(), i == skip, span);
        assert(type_tokens@ =~= separated(types.take(n + 1), span));
        assert(name_tokens@ =~= separated(names.take(n + 1), span));
        i = i + 1;
    }
    assert(types.take(i - skip) =~= types);
    assert(names.take(i - skip) =~= names);
    let r = QueryKey { key_type: tuple_of(type_tokens, span), value: tuple_of(name_tokens, span) };
    assert(is_tuple(r.key_type@, separated(param_types(views), span)));
    r
}

/// What is generated for a tracked function.
#[derive(Debug)]
pub struct TrackedPlan {
    /// The function.
    pub item: FnItem,
    /// Name of the database parameter.
    pub db: Token,
    /// Bounds of the database parameter.
    pub db_bounds: Vec<Token>,
    /// Type of the value.
    pub output_type: Vec<Token>,
    /// Whether the function returns a `PicanteResult` of the value.
    pub returns_result: bool,
    /// The key of the query.
    pub key: QueryKey,
    /// How everything is called.
    pub names: TrackedNames,
}

/// Why a tracked function is refused for its parameters or generics, if it is.
pub open spec fn tracked_refusal(
    params: Seq<ParamView>,
    generics: Seq<Token>,
    message: Seq<char>,
) -> bool {
    if params.len() == 0 {
        message == "picante: #[picante::tracked] requires a `db` parameter"@
    } else if !crate::macros::token::is_word(params[0].0, "db"@) {
        message == "picante: first parameter must be named `db`"@
    } else {
        match crate::macros::types::db_generic_in(generics) {
            DbGeneric::Param(name, _) => match crate::macros::types::referent(params[0].1) {
                None => message
                    == "picante: `db` must be `&DB` (with `DB` as a generic type param)"@,
                Some(referent) => {
                    &&& crate::macros::token::ident_text(referent)
                        != crate::macros::token::ident_text(name)
                    &&& message == "picante: `db` parameter type must be `&DB`"@
                },
            },
            view => exists|s: String|
                s@ == message && #[trigger] crate::macros::types::db_generic_read(Err(s), view),
        }
    }
}

/// Whether the first parameter of a tracked function is a reference to its one generic parameter.
pub open spec fn takes_db(
    params: Seq<ParamView>,
    generics: Seq<Token>,
    db: Token,
    bounds: Seq<Token>,
) -> bool {
    &&& params.len() > 0
    &&& crate::macros::token::is_word(params[0].0, "db"@)
    &&& crate::macros::types::db_generic_in(generics) matches DbGeneric::Param(n, b)
    &&& n == db
    &&& b == bounds
    &&& crate::macros::types::referent(params[0].1) matches Some(referent)
    &&& crate::macros::token::ident_text(referent) == crate::macros::token::ident_text(db)
}

/// Whether the plan for a tracked function came out as it must.
pub open spec fn tracked_planned(tokens: Seq<Token>, r: Result<TrackedPlan, String>) -> bool {
    match crate::macros::grammar::fn_in(tokens) {
        None => r matches Err(e) && e@ == crate::macros::grammar::not_a_function(),
        Some(view) => match r {
            Ok(plan) => {
                &&& crate::macros::grammar::fn_item_is(plan.item, view)
                &&& takes_db(view.params, view.generics, plan.db, plan.db_bounds@)
                &&& crate::macros::types::ok_type_taken(
                    plan.item.return_type@,
                    Ok((plan.output_type, plan.returns_result)),
                )
                &&& is_key_of(plan.key, view.params.skip(1))
                &&& ({
                    let name = crate::macros::token::ident_text(view.name);
                    crate::macros::names::tracked_named(
                        plan.names,
                        name,
                        crate::macros::names::snake_case_of(name),
                        crate::macros::names::upper_camel_case_of(name),
                        crate::macros::names::uppercase_of(name),
                    )
                })
            },
            Err(message) => {
                ||| tracked_refusal(view.params, view.generics, message@)
                ||| {
                    &&& exists|db: Token, bounds: Seq<Token>| #[trigger]
                        takes_db(view.params, view.generics, db, bounds)
                    &&& view.return_type matches Some(ret)
                    &&& crate::macros::types::ok_type_taken(
                        ret,
                        Err::<(Vec<Token>, bool), String>(message),
                    )
                }
            },
        },
    }
}

fn check_db(params: &Vec<Param>, generics: &[Token]) -> (r: Result<(Token, Vec<Token>), String>)
    ensures
        match r {
            Ok((db, bounds)) => takes_db(
                crate::macros::grammar::param_views(params@),
                generics@,
                db,
                bounds@,
            ),
            Err(message) => tracked_refusal(
                crate::macros::grammar::param_views(params@),
                generics@,
                message@,
            ),
        },
{
    let ghost views = crate::macros::grammar::param_views(params@);
    if params.len() == 0 {
        return Err("picante: #[picante::tracked] requires a `db` parameter".to_owned());
    }
    assert(views[0] == params@[0]@);
    if !params[0].name.is_word("db") {
        return Err("picante: first parameter must be named `db`".to_owned());
    }
    let (db, bounds) = match parse_db_generic(generics) {
        Ok(found) => found,
        Err(message) => {
            assert(crate::macros::types::db_generic_read(
                Err(message),
                crate::macros::types::db_generic_in(generics@),
            ));
            return Err(message);
        },
    };
    match strip_ref_inner_ident(params[0].param_type.as_slice()) {
        None => Err("picante: `db` must be `&DB` (with `DB` as a generic type param)".to_owned()),
        Some(referent) => {
            let expected: String = db.ident_text();
            let found: String = referent.ident_text();
            if !same_text(expected.as_str(), found.as_str()) {
                return Err("picante: `db` parameter type must be `&DB`".to_owned());
            }
            Ok((db, bounds))
        },
    }
}

proof fn unit_is_not_wrapped(tokens: Seq<Token>)
    requires
        crate::macros::grammar::is_unit_type(tokens),
    ensures
        !crate::macros::types::is_wrapped(tokens),
{
    let outer = crate::macros::types::outer_type(tokens, 1);
    let nothing = crate::macros::types::outer_type(tokens, 0);
    assert(nothing.args.len() == 0 && nothing.depth == 0);
    assert(outer.args.len() == 0);
}

/// Plan what is generated for a tracked function.
pub fn plan_tracked(tokens: &[Token]) -> (r: Result<TrackedPlan, String>)
    ensures
        tracked_planned(tokens@, r),
{
    let item = match FnItem::parse(tokens) {
        Ok(item) => item,
        Err(message) => {
            return Err(message);
        },
    };
    let (db, db_bounds) = match check_db(&item.params, item.generics.as_slice()) {
        Ok(found) => found,
        Err(message) => {
            return Err(message);
        },
    };
    let (output_type, returns_result) = match take_return_ok_type(item.return_type.as_slice()) {
        Ok(taken) => taken,
        Err(message) => {
            proof {
                let view = crate::macros::grammar::fn_in(tokens@)->0;
                assert(takes_db(view.params, view.generics, db, db_bounds@));
                if view.return_type is None {
                    unit_is_not_wrapped(item.return_type@);
                }
            }
            return Err(message);
        },
    };
    let span: usize = item.name.span;
    let key: QueryKey = build_key(&item.params, 1, span);
    let name: String = item.name.ident_text();
    let names: TrackedNames = tracked_names(name.as_str());
    Ok(TrackedPlan { item, db, db_bounds, output_type, returns_result, key, names })
}

} // verus!
