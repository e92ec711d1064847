//! What is generated for a database and for a tracked function.
use crate::macros::db::DbPlan;
#[allow(unused_imports)]
use crate::macros::db::{GeneratedView, Owner};
#[allow(unused_imports)]
use crate::macros::args::PathView;
#[allow(unused_imports)]
use crate::macros::grammar::{FieldView, FnItemView, StructView};
use crate::macros::grammar::Param;
use crate::macros::items::{InputPlan, TrackedPlan};
use crate::macros::names::{InputNames, InternedNames, TrackedNames};
#[allow(unused_imports)]
use crate::macros::token::Delimiter;
use crate::macros::token::{Token, TokenKind};
#[allow(unused_imports)]
use crate::macros::types::DbGeneric;
use vstd::prelude::*;

verus! {

/// Whether generated fields can stand beside custom ones: no two of them are named alike, and none
/// like a custom one or like one that every database has.
pub open spec fn fields_differ(custom: Seq<Seq<char>>, fields: Seq<GeneratedView>) -> bool {
    &&& forall|i: int, j: int|
        0 <= i < j < fields.len() ==> (#[trigger] fields[i]).0 != (#[trigger] fields[j]).0
    &&& forall|i: int|
        0 <= i < fields.len() ==> !custom.contains((#[trigger] fields[i]).0) && fields[i].0
            != "runtime"@ && fields[i].0 != "ingredients"@
}

/// Generated fields are accepted if and only if they differ from each other, from the custom ones
/// and from those that every database has. Otherwise the error names the first that does not.
pub proof fn different_fields_are_accepted(custom: Seq<Seq<char>>, fields: Seq<GeneratedView>)
    ensures
        crate::macros::db::fields_accepted(custom, fields) is Ok <==> fields_differ(custom, fields),
        crate::macros::db::fields_accepted(custom, fields) matches Err(message) ==> exists|i: int|
            {
                &&& 0 <= i < fields.len()
                &&& fields_differ(custom, fields.take(i))
                &&& !fields_differ(custom, #[trigger] fields.take(i + 1))
                &&& message == (if custom.contains(fields[i].0) {
                    crate::macros::db::custom_conflict_text(fields[i])
                } else {
                    crate::macros::db::repeated_text(fields[i])
                })
            },
    decreases fields.len(),
{
    if fields.len() > 0 {
        let fewer = fields.drop_last();
        let last = fields.len() - 1;
        different_fields_are_accepted(custom, fewer);
        assert(fields.take(last) =~= fewer);
        assert(fields.take(last + 1) =~= fields);
        let r = crate::macros::db::fields_accepted(custom, fields);
        if crate::macros::db::fields_accepted(custom, fewer) is Ok {
            if r is Ok {
                assert forall|i: int, j: int| 0 <= i < j < fields.len() implies (
                #[trigger] fields[i]).0 != (#[trigger] fields[j]).0 by {
                    assert(fewer[i] == fields[i]);
                    if j < last {
                        assert(fewer[j] == fields[j]);
                    }
                }
                assert forall|i: int| 0 <= i < fields.len() implies !custom.contains(
                    (#[trigger] fields[i]).0,
                ) && fields[i].0 != "runtime"@ && fields[i].0 != "ingredients"@ by {
                    if i < last {
                        assert(fewer[i] == fields[i]);
                    }
                }
            } else {
                if crate::macros::db::names_field(fewer, fields.last().0) {
                    let i = choose|i: int|
                        0 <= i < fewer.len() && (#[trigger] fewer[i]).0 == fields.last().0;
                    assert(fields[i].0 == fields[last].0);
                }
                assert(fields.last() == fields[last]);
                assert(!fields_differ(custom, fields));
                assert(!fields_differ(custom, fields.take(last + 1)));
            }
        } else {
            if fields_differ(custom, fields) {
                assert(fields_differ(custom, fewer)) by {
                    assert forall|i: int, j: int| 0 <= i < j < fewer.len() implies (
                    #[trigger] fewer[i]).0 != (#[trigger] fewer[j]).0 by {
                        assert(fields[i].0 != fields[j].0);
                    }
                    assert forall|i: int| 0 <= i < fewer.len() implies !custom.contains(
                        (#[trigger] fewer[i]).0,
                    ) && fewer[i].0 != "runtime"@ && fewer[i].0 != "ingredients"@ by {
                        assert(!custom.contains(fields[i].0));
                    }
                }
            }
            let message = r->Err_0;
            let i = choose|i: int|
                {
                    &&& 0 <= i < fewer.len()
                    &&& fields_differ(custom, fewer.take(i))
                    &&& !fields_differ(custom, #[trigger] fewer.take(i + 1))
                    &&& message == (if custom.contains(fewer[i].0) {
                        crate::macros::db::custom_conflict_text(fewer[i])
                    } else {
                        crate::macros::db::repeated_text(fewer[i])
                    })
                };
            assert(fewer.take(i) =~= fields.take(i));
            assert(fewer.take(i + 1) =~= fields.take(i + 1));
            assert(fewer[i] == fields[i]);
            assert(!fields_differ(custom, fields.take(i + 1)));
        }
    }
}

/// Custom fields are accepted if and only if no two of them are named alike and none is named like
/// one that every database has. Where two are, the error names the first that repeats another.
pub proof fn different_custom_fields_are_accepted(names: Seq<Seq<char>>)
    ensures
        crate::macros::db::custom_accepted(names) is Ok <==> {
            &&& forall|i: int, j: int|
                0 <= i < j < names.len() ==> #[trigger] names[i] != #[trigger] names[j]
            &&& forall|i: int|
                0 <= i < names.len() ==> #[trigger] names[i] != "runtime"@ && names[i]
                    != "ingredients"@
        },
        crate::macros::db::custom_accepted(names) matches Err(message) ==> {
            ||| exists|i: int, j: int|
                {
                    &&& 0 <= i < j < names.len()
                    &&& #[trigger] names[i] == #[trigger] names[j]
                    &&& names.take(j).no_duplicates()
                    &&& message == "picante: duplicate field `"@ + names[j] + "` in db struct"@
                }
            ||| names.no_duplicates() && exists|i: int|
                {
                    &&& 0 <= i < names.len()
                    &&& #[trigger] names[i] == "runtime"@ || names[i] == "ingredients"@
                    &&& message == "picante: db field name conflict: `"@ + names[i]
                        + "` is reserved"@
                }
        },
{
    if !names.no_duplicates() {
        let (a, b) = choose|a: int, b: int|
            0 <= a < names.len() && 0 <= b < names.len() && a != b && names[a] == names[b];
        if a < b {
            assert(names[a] == names[b]);
        } else {
            assert(names[b] == names[a]);
        }
        first_repetition_is_found(names);
    } else {
        if names.contains("runtime"@) {
            let i = choose|i: int| 0 <= i < names.len() && names[i] == "runtime"@;
            assert(names[i] == "runtime"@);
        } else if names.contains("ingredients"@) {
            let i = choose|i: int| 0 <= i < names.len() && names[i] == "ingredients"@;
            assert(names[i] == "ingredients"@);
        }
    }
}

proof fn first_repetition_is_found(names: Seq<Seq<char>>)
    requires
        !names.no_duplicates(),
    ensures
        exists|i: int, j: int|
            {
                &&& 0 <= i < j < names.len()
                &&& #[trigger] names[i] == #[trigger] names[j]
                &&& names.take(j).no_duplicates()
                &&& crate::macros::db::first_repeated_name(names) == names[j]
            },
    decreases names.len(),
{
    let fewer = names.drop_last();
    if !fewer.no_duplicates() {
        first_repetition_is_found(fewer);
        let (i, j) = choose|i: int, j: int|
            {
                &&& 0 <= i < j < fewer.len()
                &&& #[trigger] fewer[i] == #[trigger] fewer[j]
                &&& fewer.take(j).no_duplicates()
                &&& crate::macros::db::first_repeated_name(fewer) == fewer[j]
            };
        assert(names[i] == names[j]);
        assert(names.take(j) =~= fewer.take(j));
    } else {
        let (a, b) = choose|a: int, b: int|
            0 <= a < names.len() && 0 <= b < names.len() && a != b && names[a] == names[b];
        let last = names.len() - 1;
        if a < last && b < last {
            assert(fewer[a] == fewer[b]);
        }
        let i = if a == last {
            b
        } else {
            a
        };
        assert(names[i] == names[last]);
        assert(names.take(last) =~= fewer);
    }
}

proof fn input_fields_are_pairs(inputs: Seq<PathView>, i: int)
    requires
        0 <= i < inputs.len(),
    ensures
        crate::macros::db::input_fields(inputs).len() == 2 * inputs.len(),
        ({
            let name = crate::macros::token::ident_text(inputs[i].1);
            let snake = crate::macros::names::snake_case_of(name);
            &&& crate::macros::db::input_fields(inputs)[2 * i] == (
                snake + "_keys_ingredient"@,
                name,
                Owner::Input,
                name + "::keys"@,
            )
            &&& crate::macros::db::input_fields(inputs)[2 * i + 1] == (
                snake + "_data_ingredient"@,
                name,
                Owner::Input,
                name + "::data"@,
            )
        }),
    decreases inputs.len(),
{
    reveal_with_fuel(crate::macros::db::input_fields, 2);
    if i < inputs.len() - 1 {
        input_fields_are_pairs(inputs.drop_last(), i);
    } else if inputs.len() > 1 {
        input_fields_are_pairs(inputs.drop_last(), 0);
    }
}

/// Whether a generated field is called so, is for such an item and has such a kind name.
pub open spec fn is_field(
    field: crate::macros::db::GeneratedField,
    field_name: Seq<char>,
    item: Seq<char>,
    owner: Owner,
    kind_name: Seq<char>,
) -> bool {
    &&& field.name@ == field_name
    &&& field.item@ == item
    &&& field.owner == owner
    &&& field.kind_name@ == kind_name
}

/// A database has two fields for each of its inputs, one for each of its interned structs and one for
/// each of its tracked functions, in this order and with nothing else between them, and no two of its
/// fields are named alike.
pub proof fn databases_have_a_field_for_each_item(
    attr: Seq<Token>,
    item: Seq<Token>,
    plan: DbPlan,
)
    requires
        crate::macros::db::db_planned(attr, item, Ok(plan)),
    ensures
        ({
            let a = plan.args@.inputs;
            let b = plan.args@.interned;
            let c = plan.args@.queries;
            let fields = plan.fields@;
            &&& fields.len() == 2 * a.len() + b.len() + c.len()
            &&& forall|i: int|
                0 <= i < a.len() ==> {
                    let name = crate::macros::token::ident_text((#[trigger] a[i]).1);
                    let snake = crate::macros::names::snake_case_of(name);
                    &&& is_field(
                        fields[2 * i],
                        snake + "_keys_ingredient"@,
                        name,
                        Owner::Input,
                        name + "::keys"@,
                    )
                    &&& is_field(
                        fields[2 * i + 1],
                        snake + "_data_ingredient"@,
                        name,
                        Owner::Input,
                        name + "::data"@,
                    )
                }
            &&& forall|i: int|
                0 <= i < b.len() ==> {
                    let name = crate::macros::token::ident_text((#[trigger] b[i]).1);
                    is_field(
                        fields[2 * a.len() + i],
                        crate::macros::names::snake_case_of(name) + "_ingredient"@,
                        name,
                        Owner::Interned,
                        name,
                    )
                }
            &&& forall|i: int|
                0 <= i < c.len() ==> {
                    let name = crate::macros::token::ident_text((#[trigger] c[i]).1);
                    is_field(
                        fields[2 * a.len() + b.len() + i],
                        crate::macros::names::snake_case_of(name) + "_query"@,
                        name,
                        Owner::Query,
                        name,
                    )
                }
            &&& forall|i: int, j: int|
                0 <= i < j < fields.len() ==> (#[trigger] fields[i]).name@ != (
                #[trigger] fields[j]).name@
            &&& forall|i: int, j: int|
                0 <= i < fields.len() && 0 <= j < plan.decl@.fields.len() ==> (
                #[trigger] fields[i]).name@ != crate::macros::token::ident_text(
                    (#[trigger] plan.decl@.fields[j]).name,
                )
            &&& forall|i: int, j: int|
                0 <= i < j < plan.decl@.fields.len() ==> crate::macros::token::ident_text(
                    (#[trigger] plan.decl@.fields[i]).name,
                ) != crate::macros::token::ident_text((#[trigger] plan.decl@.fields[j]).name)
        }),
{
    let args = plan.args@;
    let (a, b, c) = (args.inputs, args.interned, args.queries);
    let fields = plan.fields@;
    let views = crate::macros::db::generated_views(fields);
    let decl = plan.decl@;
    let custom = crate::macros::db::custom_names(decl.fields);
    assert(views == crate::macros::db::generated_fields(args));
    if a.len() > 0 {
        input_fields_are_pairs(a, 0);
    }
    assert(views.len() == fields.len());
    assert forall|i: int| 0 <= i < fields.len() implies #[trigger] views[i] == fields[i]@ by {}
    assert forall|i: int| 0 <= i < a.len() implies {
        let name = crate::macros::token::ident_text((#[trigger] a[i]).1);
        let snake = crate::macros::names::snake_case_of(name);
        &&& is_field(
            fields[2 * i],
            snake + "_keys_ingredient"@,
            name,
            Owner::Input,
            name + "::keys"@,
        )
        &&& is_field(
            fields[2 * i + 1],
            snake + "_data_ingredient"@,
            name,
            Owner::Input,
            name + "::data"@,
        )
    } by {
        input_fields_are_pairs(a, i);
        assert(views[2 * i] == fields[2 * i]@);
        assert(views[2 * i + 1] == fields[2 * i + 1]@);
    }
    assert forall|i: int| 0 <= i < b.len() implies {
        let name = crate::macros::token::ident_text((#[trigger] b[i]).1);
        is_field(
            fields[2 * a.len() + i],
            crate::macros::names::snake_case_of(name) + "_ingredient"@,
            name,
            Owner::Interned,
            name,
        )
    } by {
        assert(views[2 * a.len() + i] == fields[2 * a.len() + i]@);
        assert(views[2 * a.len() + i] == crate::macros::db::interned_fields(b)[i]);
    }
    assert forall|i: int| 0 <= i < c.len() implies {
        let name = crate::macros::token::ident_text((#[trigger] c[i]).1);
        is_field(
            fields[2 * a.len() + b.len() + i],
            crate::macros::names::snake_case_of(name) + "_query"@,
            name,
            Owner::Query,
            name,
        )
    } by {
        assert(views[2 * a.len() + b.len() + i] == fields[2 * a.len() + b.len() + i]@);
        assert(views[2 * a.len() + b.len() + i] == crate::macros::db::query_fields(c)[i]);
    }
    different_fields_are_accepted(custom, views);
    assert forall|i: int, j: int| 0 <= i < j < fields.len() implies (#[trigger] fields[i]).name@ != (
    #[trigger] fields[j]).name@ by {
        assert(views[i].0 != views[j].0);
    }
    assert forall|i: int, j: int| 0 <= i < fields.len() && 0 <= j < decl.fields.len() implies (
    #[trigger] fields[i]).name@ != crate::macros::token::ident_text(
        (#[trigger] decl.fields[j]).name,
    ) by {
        assert(!custom.contains(views[i].0));
        assert(custom[j] == crate::macros::token::ident_text(decl.fields[j].name));
    }
    assert(custom.no_duplicates());
    assert forall|i: int, j: int|
        0 <= i < j < decl.fields.len() implies crate::macros::token::ident_text(
        (#[trigger] decl.fields[i]).name,
    ) != crate::macros::token::ident_text((#[trigger] decl.fields[j]).name) by {
        assert(custom[i] != custom[j]);
    }
}

/// Whether two names are made of two words in the same way: with the same text before and behind the
/// word.
pub open spec fn are_made_alike(x: Seq<char>, a: Seq<char>, y: Seq<char>, b: Seq<char>) -> bool {
    exists|before: Seq<char>, behind: Seq<char>|
        x == #[trigger] (before + a + behind) && y == before + b + behind
}

proof fn made_alike(before: Seq<char>, a: Seq<char>, b: Seq<char>, behind: Seq<char>)
    ensures
        are_made_alike(before + a + behind, a, before + b + behind, b),
        before.len() == 0 ==> are_made_alike(a + behind, a, b + behind, b),
{
    let x = before + a + behind;
    assert(x == before + a + behind);
    if before.len() == 0 {
        assert(a + behind =~= before + a + behind);
        assert(b + behind =~= before + b + behind);
    }
}

/// Whatever an item is called, what is generated for it is called after it in the same way as for any
/// other.
pub proof fn all_inputs_are_named_alike(
    p: InputNames,
    q: InputNames,
    a: Seq<char>,
    b: Seq<char>,
    snake_a: Seq<char>,
    snake_b: Seq<char>,
    upper_a: Seq<char>,
    upper_b: Seq<char>,
)
    requires
        crate::macros::names::input_named(p, a, snake_a, upper_a),
        crate::macros::names::input_named(q, b, snake_b, upper_b),
    ensures
        are_made_alike(p.keys_kind@, upper_a, q.keys_kind@, upper_b),
        are_made_alike(p.data_kind@, upper_a, q.data_kind@, upper_b),
        are_made_alike(p.keys_name@, a, q.keys_name@, b),
        are_made_alike(p.data_name@, a, q.data_name@, b),
        are_made_alike(p.keys_type@, a, q.keys_type@, b),
        are_made_alike(p.data_type@, a, q.data_type@, b),
        are_made_alike(p.data_struct@, a, q.data_struct@, b),
        are_made_alike(p.has_trait@, a, q.has_trait@, b),
        are_made_alike(p.keys_accessor@, snake_a, q.keys_accessor@, snake_b),
        are_made_alike(p.data_accessor@, snake_a, q.data_accessor@, snake_b),
        are_made_alike(p.make_keys@, snake_a, q.make_keys@, snake_b),
        are_made_alike(p.make_data@, snake_a, q.make_data@, snake_b),
        are_made_alike(p.keys_field@, snake_a, q.keys_field@, snake_b),
        are_made_alike(p.data_field@, snake_a, q.data_field@, snake_b),
{
    made_alike(Seq::empty(), upper_a, upper_b, "_KEYS_KIND"@);
    made_alike(Seq::empty(), upper_a, upper_b, "_DATA_KIND"@);
    made_alike(Seq::empty(), a, b, "::keys"@);
    made_alike(Seq::empty(), a, b, "::data"@);
    made_alike(Seq::empty(), a, b, "KeysIngredient"@);
    made_alike(Seq::empty(), a, b, "DataIngredient"@);
    made_alike(Seq::empty(), a, b, "Data"@);
    made_alike("Has"@, a, b, "Ingredient"@);
    made_alike(Seq::empty(), snake_a, snake_b, "_keys"@);
    made_alike(Seq::empty(), snake_a, snake_b, "_data"@);
    made_alike("make_"@, snake_a, snake_b, "_keys"@);
    made_alike("make_"@, snake_a, snake_b, "_data"@);
    made_alike(Seq::empty(), snake_a, snake_b, "_keys_ingredient"@);
    made_alike(Seq::empty(), snake_a, snake_b, "_data_ingredient"@);
}

/// Whatever an interned struct is called, what is generated for it is called after it in the same way
/// as for any other.
pub proof fn all_interned_structs_are_named_alike(
    p: InternedNames,
    q: InternedNames,
    a: Seq<char>,
    b: Seq<char>,
    snake_a: Seq<char>,
    snake_b: Seq<char>,
    upper_a: Seq<char>,
    upper_b: Seq<char>,
)
    requires
        crate::macros::names::interned_named(p, a, snake_a, upper_a),
        crate::macros::names::interned_named(q, b, snake_b, upper_b),
    ensures
        are_made_alike(p.kind@, upper_a, q.kind@, upper_b),
        are_made_alike(p.ingredient_type@, a, q.ingredient_type@, b),
        are_made_alike(p.value_struct@, a, q.value_struct@, b),
        are_made_alike(p.has_trait@, a, q.has_trait@, b),
        are_made_alike(p.accessor@, snake_a, q.accessor@, snake_b),
        are_made_alike(p.make@, snake_a, q.make@, snake_b),
        are_made_alike(p.field@, snake_a, q.field@, snake_b),
{
    made_alike(Seq::empty(), upper_a, upper_b, "_KIND"@);
    made_alike(Seq::empty(), a, b, "Ingredient"@);
    made_alike(Seq::empty(), a, b, "Value"@);
    made_alike("Has"@, a, b, "Ingredient"@);
    made_alike(Seq::empty(), snake_a, snake_b, "_ingredient"@);
    made_alike("make_"@, snake_a, snake_b, "_ingredient"@);
}

/// Whatever a tracked function is called, what is generated for it is called after it in the same way
/// as for any other.
pub proof fn all_tracked_functions_are_named_alike(
    p: TrackedNames,
    q: TrackedNames,
    a: Seq<char>,
    b: Seq<char>,
    snake_a: Seq<char>,
    snake_b: Seq<char>,
    pascal_a: Seq<char>,
    pascal_b: Seq<char>,
    upper_a: Seq<char>,
    upper_b: Seq<char>,
)
    requires
        crate::macros::names::tracked_named(p, a, snake_a, pascal_a, upper_a),
        crate::macros::names::tracked_named(q, b, snake_b, pascal_b, upper_b),
    ensures
        are_made_alike(p.kind@, upper_a, q.kind@, upper_b),
        are_made_alike(p.query_type@, pascal_a, q.query_type@, pascal_b),
        are_made_alike(p.has_trait@, pascal_a, q.has_trait@, pascal_b),
        are_made_alike(p.getter@, snake_a, q.getter@, snake_b),
        are_made_alike(p.make@, snake_a, q.make@, snake_b),
        are_made_alike(p.implementation@, a, q.implementation@, b),
        are_made_alike(p.field@, snake_a, q.field@, snake_b),
{
    made_alike(Seq::empty(), upper_a, upper_b, "_KIND"@);
    made_alike(Seq::empty(), pascal_a, pascal_b, "Query"@);
    made_alike("Has"@, pascal_a, pascal_b, "Query"@);
    made_alike(Seq::empty(), snake_a, snake_b, "_query"@);
    made_alike("make_"@, snake_a, snake_b, "_query"@);
    made_alike("__picante_impl_"@, a, b, Seq::empty());
    assert("__picante_impl_"@ + a + Seq::<char>::empty() =~= "__picante_impl_"@ + a);
    assert("__picante_impl_"@ + b + Seq::<char>::empty() =~= "__picante_impl_"@ + b);
}

/// Lists of tokens stand in order with one comma between each and the next.
pub proof fn lists_have_commas_between(a: Seq<Seq<Token>>, b: Seq<Seq<Token>>, span: usize)
    ensures
        crate::macros::items::separated(Seq::empty(), span).len() == 0,
        a.len() == 1 ==> crate::macros::items::separated(a, span) == a[0],
        a.len() > 0 && b.len() > 0 ==> crate::macros::items::separated(a + b, span)
            == crate::macros::items::separated(a, span) + seq![
            Token { kind: TokenKind::Punct(',', false), span },
        ] + crate::macros::items::separated(b, span),
    decreases b.len(),
{
    let comma = seq![Token { kind: TokenKind::Punct(',', false), span }];
    if a.len() > 0 && b.len() > 0 {
        let whole = crate::macros::items::separated(a + b, span);
        assert((a + b).drop_last() =~= a + b.drop_last());
        assert((a + b).last() == b.last());
        if b.len() == 1 {
            assert(a + b.drop_last() =~= a);
            assert(whole =~= crate::macros::items::separated(a, span) + comma
                + crate::macros::items::separated(b, span));
        } else {
            lists_have_commas_between(a, b.drop_last(), span);
            assert(whole =~= crate::macros::items::separated(a, span) + comma
                + crate::macros::items::separated(b, span));
        }
    }
}

/// The types of parameters, in order.
pub open spec fn types_of(params: Seq<Param>) -> Seq<Seq<Token>> {
    params.map_values(|p: Param| p.param_type@)
}

/// The names of parameters, in order.
pub open spec fn names_of(params: Seq<Param>) -> Seq<Seq<Token>> {
    params.map_values(|p: Param| seq![p.name])
}

/// The key of a tracked function is made of all its parameters but the first: one parameter is the
/// key itself, none is the empty tuple, and several are a tuple of them in order.
pub proof fn keys_are_made_of_all_parameters(
    tokens: Seq<Token>,
    plan: TrackedPlan,
)
    requires
        crate::macros::items::tracked_planned(tokens, Ok(plan)),
    ensures
        ({
            let params = plan.item.params@;
            &&& params.len() > 0
            &&& crate::macros::token::ident_text(params[0].name) == "db"@
            &&& params.len() == 2 ==> plan.key.key_type@ == params[1].param_type@
                && plan.key.value@ == seq![params[1].name]
            &&& params.len() != 2 ==> exists|span: usize|
                {
                    &&& is_tuple_of(
                        plan.key.key_type@,
                        #[trigger] crate::macros::items::separated(types_of(params.skip(1)), span),
                    )
                    &&& is_tuple_of(
                        plan.key.value@,
                        crate::macros::items::separated(names_of(params.skip(1)), span),
                    )
                }
        }),
{
    let params = plan.item.params@;
    let view = crate::macros::grammar::fn_in(tokens)->0;
    let views = crate::macros::grammar::param_views(params);
    assert(views == view.params);
    assert(views[0] == params[0]@);
    let rest = views.skip(1);
    if params.len() == 2 {
        assert(rest[0] == params[1]@);
    } else {
        let span = choose|span: usize|
            {
                &&& crate::macros::items::is_tuple(
                    plan.key.key_type@,
                    #[trigger] crate::macros::items::separated(
                        crate::macros::items::param_types(rest),
                        span,
                    ),
                )
                &&& crate::macros::items::is_tuple(
                    plan.key.value@,
                    crate::macros::items::separated(crate::macros::items::param_names(rest), span),
                )
            };
        let types = types_of(params.skip(1));
        let names = names_of(params.skip(1));
        assert(crate::macros::items::param_types(rest) =~= types);
        assert(crate::macros::items::param_names(rest) =~= names);
        assert(is_tuple_of(plan.key.key_type@, crate::macros::items::separated(types, span)));
    }
}

/// Whether tokens are one pair of parentheses with the given tokens in it.
pub open spec fn is_tuple_of(tokens: Seq<Token>, content: Seq<Token>) -> bool {
    &&& tokens.len() == 1
    &&& tokens[0].kind matches TokenKind::Group(d, inner) && d == Delimiter::Parenthesis && inner@
        == content
}

/// Whether a token is an opening angle bracket.
pub open spec fn opens(token: Token) -> bool {
    token.kind matches TokenKind::Punct(c, _) && c == '<'
}

/// Whether a token is a closing angle bracket.
pub open spec fn closes(token: Token) -> bool {
    token.kind matches TokenKind::Punct(c, _) && c == '>'
}

/// How many more angle brackets open than close in some tokens.
#[verifier::opaque]
pub open spec fn depth(tokens: Seq<Token>) -> int
    decreases tokens.len(),
{
    if tokens.len() == 0 {
        0
    } else {
        depth(tokens.drop_last()) + (if opens(tokens.last()) {
            1int
        } else if closes(tokens.last()) {
            -1int
        } else {
            0int
        })
    }
}

/// Whether the angle brackets of tokens match.
pub open spec fn is_balanced(tokens: Seq<Token>) -> bool {
    &&& depth(tokens) == 0
    &&& forall|n: int| 0 <= n <= tokens.len() ==> depth(#[trigger] tokens.take(n)) >= 0
}

/// Whether no comma stands outside of all angle brackets of tokens.
pub open spec fn is_one_argument(tokens: Seq<Token>) -> bool {
    forall|n: int|
        0 <= n < tokens.len() && (#[trigger] tokens[n].kind matches TokenKind::Punct(c, _) && c
            == ',') ==> depth(tokens.take(n)) > 0
}

proof fn depths_agree(tokens: Seq<Token>, n: int)
    requires
        is_balanced(tokens),
        0 <= n <= tokens.len(),
    ensures
        crate::macros::types::angle_depth(tokens, n) == depth(tokens.take(n)),
    decreases n,
{
    reveal(depth);
    if n > 0 {
        depths_agree(tokens, n - 1);
        assert(tokens.take(n).drop_last() =~= tokens.take(n - 1));
        assert(tokens.take(n).last() == tokens[n - 1]);
        assert(depth(tokens.take(n)) >= 0);
    }
}

proof fn wrapped_types_are_split(head: Seq<Token>, open: Token, inner: Seq<Token>, close: Token, n: int)
    requires
        forall|i: int| 0 <= i < head.len() ==> !opens(#[trigger] head[i]) && !closes(head[i]),
        opens(open),
        closes(close),
        is_balanced(inner),
        0 <= n <= head.len() + inner.len() + 2,
    ensures
        ({
            let ty = head + seq![open] + inner + seq![close];
            let outer = crate::macros::types::outer_type(ty, n);
            let h = head.len() as int;
            let k = inner.len() as int;
            &&& outer.depth == crate::macros::types::angle_depth(ty, n)
            &&& n <= h ==> outer.head == head.take(n) && outer.args.len() == 0 && outer.depth == 0
            &&& h < n <= h + 1 + k ==> outer.head == head && outer.args == inner.take(n - h - 1)
                && outer.depth == 1 + depth(inner.take(n - h - 1))
            &&& n == h + k + 2 ==> outer.head == head && outer.args == inner && outer.depth == 0
        }),
    decreases n,
{
    let ty = head + seq![open] + inner + seq![close];
    let h = head.len() as int;
    let k = inner.len() as int;
    let outer = crate::macros::types::outer_type(ty, n);
    reveal(depth);
    if n == 0 {
        assert(head.take(0) =~= Seq::empty());
        assert(outer.args =~= Seq::empty());
    } else {
        wrapped_types_are_split(head, open, inner, close, n - 1);
        let token = ty[n - 1];
        if n <= h {
            assert(token == head[n - 1]);
            assert(head.take(n) =~= head.take(n - 1).push(token));
        } else if n == h + 1 {
            assert(token == open);
            assert(head.take(h) =~= head);
            assert(inner.take(0) =~= Seq::empty());
            let before = crate::macros::types::outer_type(ty, n - 1);
            assert(before.args =~= Seq::empty());
        } else if n <= h + 1 + k {
            let m = n - h - 1;
            assert(token == inner[m - 1]);
            assert(inner.take(m).drop_last() =~= inner.take(m - 1));
            assert(inner.take(m).last() == token);
            assert(inner.take(m) =~= inner.take(m - 1).push(token));
            assert(depth(inner.take(m)) >= 0);
            assert(depth(inner.take(m - 1)) >= 0);
        } else {
            assert(token == close);
            assert(inner.take(k) =~= inner);
        }
    }
}

/// A function that returns a `PicanteResult` of a type has values of that type; one that returns
/// anything else has values of what it returns.
pub proof fn results_are_unwrapped(
    path: Seq<Token>,
    word: Token,
    open: Token,
    inner: Seq<Token>,
    close: Token,
    r: Result<(Vec<Token>, bool), String>,
)
    requires
        forall|i: int| 0 <= i < path.len() ==> !opens(#[trigger] path[i]) && !closes(path[i]),
        word.kind is Ident,
        opens(open),
        closes(close),
        inner.len() > 0,
        is_balanced(inner),
        is_one_argument(inner),
        crate::macros::types::ok_type_taken(path.push(word) + seq![open] + inner + seq![close], r),
    ensures
        r matches Ok((ty, wrapped)) && {
            if crate::macros::token::ident_text(word) == "PicanteResult"@ {
                wrapped && ty@ == inner
            } else {
                !wrapped && ty@ == path.push(word) + seq![open] + inner + seq![close]
            }
        },
{
    let head = path.push(word);
    let ret = head + seq![open] + inner + seq![close];
    assert forall|i: int| 0 <= i < head.len() implies !opens(#[trigger] head[i]) && !closes(
        head[i],
    ) by {
        if i < path.len() {
            assert(head[i] == path[i]);
        }
    }
    wrapped_types_are_split(head, open, inner, close, ret.len() as int);
    assert(head.last() == word);
    if crate::macros::token::ident_text(word) == "PicanteResult"@ {
        let end = choose|end: int|
            {
                &&& #[trigger] crate::macros::types::is_first_arg_end(inner, end)
                &&& if end == 0 {
                    r matches Err(e) && e@ == "picante: expected generic argument"@
                } else {
                    r matches Ok(out) && out.0@ == inner.take(end) && out.1
                }
            };
        if end < inner.len() {
            depths_agree(inner, end);
            assert(crate::macros::types::separates(inner, end));
            assert(inner[end].kind matches TokenKind::Punct(c, _) && c == ',');
            assert(false);
        }
        assert(inner.take(end) =~= inner);
    }
}

/// A type without angle brackets is what it is.
pub proof fn other_types_stay(ret: Seq<Token>, r: Result<(Vec<Token>, bool), String>)
    requires
        forall|i: int| 0 <= i < ret.len() ==> !opens(#[trigger] ret[i]) && !closes(ret[i]),
        crate::macros::types::ok_type_taken(ret, r),
    ensures
        r matches Ok((ty, wrapped)) && !wrapped && ty@ == ret,
{
    plain_types_have_no_arguments(ret, ret.len() as int);
}

proof fn plain_types_have_no_arguments(ret: Seq<Token>, n: int)
    requires
        forall|i: int| 0 <= i < ret.len() ==> !opens(#[trigger] ret[i]) && !closes(ret[i]),
        0 <= n <= ret.len(),
    ensures
        crate::macros::types::outer_type(ret, n).args.len() == 0,
        crate::macros::types::outer_type(ret, n).depth == 0,
        crate::macros::types::angle_depth(ret, n) == 0,
    decreases n,
{
    if n > 0 {
        plain_types_have_no_arguments(ret, n - 1);
        assert(!opens(ret[n - 1]) && !closes(ret[n - 1]));
    }
}

/// The generics of a tracked function are its database parameter, with the bounds behind the colon
/// if there is one.
pub proof fn database_parameters_are_read(
    open: Token,
    db: Token,
    colon: Token,
    bounds: Seq<Token>,
    close: Token,
)
    requires
        opens(open),
        closes(close),
        db.kind is Ident,
        colon.kind matches TokenKind::Punct(c, _) && c == ':',
        is_balanced(seq![db, colon] + bounds),
        is_one_argument(seq![db, colon] + bounds),
    ensures
        crate::macros::types::db_generic_in(seq![open, db, close]) == DbGeneric::Param(
            db,
            Seq::empty(),
        ),
        crate::macros::types::db_generic_in(seq![open, db, colon] + bounds + seq![close])
            == DbGeneric::Param(db, bounds),
        crate::macros::types::db_generic_in(Seq::empty()) == DbGeneric::Missing,
{
    let short = seq![open, db, close];
    let one = short.subrange(1, 2);
    assert(one =~= seq![db]);
    assert forall|i: int| !#[trigger] crate::macros::types::separates(one, i) by {}
    let long = seq![open, db, colon] + bounds + seq![close];
    let inner = seq![db, colon] + bounds;
    assert(long.subrange(1, long.len() - 1) =~= inner);
    assert(long.last() == close);
    assert forall|i: int| !#[trigger] crate::macros::types::separates(inner, i) by {
        if crate::macros::types::separates(inner, i) {
            depths_agree(inner, i);
            assert(inner[i].kind matches TokenKind::Punct(c, _) && c == ',');
            assert(false);
        }
    }
    assert(inner[0] == db && inner[1] == colon);
    assert(inner.skip(2) =~= bounds);
}

/// The type behind a reference is found, with or without a lifetime; a mutable reference is none.
pub proof fn referents_are_found(ampersand: Token, quote: Token, lifetime: Token, name: Token)
    requires
        ampersand.kind matches TokenKind::Punct(c, _) && c == '&',
        quote.kind matches TokenKind::Punct(c, _) && c == '\'',
        name.kind is Ident,
    ensures
        crate::macros::token::ident_text(name) != "mut"@ ==> {
            &&& crate::macros::types::referent(seq![ampersand, name]) == Some(name)
            &&& crate::macros::types::referent(seq![ampersand, quote, lifetime, name]) == Some(name)
        },
        crate::macros::token::ident_text(lifetime) == "mut"@ && lifetime.kind is Ident
            ==> crate::macros::types::referent(seq![ampersand, lifetime, name]) is None,
        crate::macros::types::referent(seq![name]) is None,
{
}

/// A function whose first parameter is `db`, a reference to its one generic parameter, and that returns
/// nothing or a type without angle brackets, is accepted, whatever its other parameters and its bounds
/// are. The plan then has that parameter, those bounds and the type of the value.
pub proof fn tracked_functions_are_accepted(
    tokens: Seq<Token>,
    view: FnItemView,
    r: Result<TrackedPlan, String>,
    open: Token,
    db: Token,
    colon: Token,
    bounds: Seq<Token>,
    close: Token,
)
    requires
        crate::macros::items::tracked_planned(tokens, r),
        crate::macros::grammar::fn_in(tokens) == Some(view),
        opens(open),
        closes(close),
        db.kind is Ident,
        colon.kind matches TokenKind::Punct(c, _) && c == ':',
        is_balanced(seq![db, colon] + bounds),
        is_one_argument(seq![db, colon] + bounds),
        view.generics == seq![open, db, colon] + bounds + seq![close],
        view.params.len() > 0,
        crate::macros::token::is_word(view.params[0].0, "db"@),
        ({
            let ty = view.params[0].1;
            &&& ty.len() == 2
            &&& ty[0].kind matches TokenKind::Punct(c, _) && c == '&'
            &&& ty[1].kind is Ident
            &&& crate::macros::token::ident_text(ty[1]) == crate::macros::token::ident_text(db)
        }),
        crate::macros::token::ident_text(db) != "mut"@,
        view.return_type matches Some(ret) ==> forall|i: int|
            0 <= i < ret.len() ==> !opens(#[trigger] ret[i]) && !closes(ret[i]),
    ensures
        r matches Ok(plan) && {
            &&& plan.db == db
            &&& plan.db_bounds@ == bounds
            &&& !plan.returns_result
            &&& view.return_type matches Some(ret) ==> plan.output_type@ == ret
        },
{
    database_parameters_are_read(open, db, colon, bounds, close);
    let ty = view.params[0].1;
    assert(ty =~= seq![ty[0], ty[1]]);
    assert(crate::macros::types::referent(ty) == Some(ty[1]));
    match r {
        Ok(plan) => {
            if let Some(ret) = view.return_type {
                other_types_stay(ret, Ok((plan.output_type, plan.returns_result)));
            } else {
                let ret = plan.item.return_type@;
                assert(ret.len() == 1);
                assert forall|i: int| 0 <= i < ret.len() implies !opens(#[trigger] ret[i])
                    && !closes(ret[i]) by {
                    assert(ret[0].kind is Group);
                }
                other_types_stay(ret, Ok((plan.output_type, plan.returns_result)));
            }
        },
        Err(message) => {
            if let Some(ret) = view.return_type {
                if crate::macros::types::ok_type_taken(
                    ret,
                    Err::<(Vec<Token>, bool), String>(message),
                ) {
                    other_types_stay(ret, Err(message));
                }
            }
        },
    }
}

/// A struct without generics is accepted as an input if and only if at most one of its fields is marked
/// as the key; the plan then has the place of that field, or none where no field is marked.
pub proof fn inputs_have_at_most_one_key(
    tokens: Seq<Token>,
    view: StructView,
    r: Result<InputPlan, String>,
)
    requires
        crate::macros::items::input_planned(tokens, r),
        crate::macros::grammar::struct_in(tokens) == Some(view),
        view.generics.len() == 0,
    ensures
        r is Ok <==> forall|i: int, j: int|
            0 <= i < j < view.fields.len() ==> !(is_marked(#[trigger] view.fields[i]) && is_marked(
                #[trigger] view.fields[j],
            )),
        r matches Ok(plan) ==> match plan.key {
            Some(k) => k < view.fields.len() && forall|i: int|
                0 <= i < view.fields.len() ==> (is_marked(#[trigger] view.fields[i]) <==> i == k),
            None => forall|i: int|
                0 <= i < view.fields.len() ==> !is_marked(#[trigger] view.fields[i]),
        },
{
    assert forall|i: int| 0 <= i < view.fields.len() implies crate::macros::grammar::has_key(
        (#[trigger] view.fields[i]).attrs,
    ) == is_marked(view.fields[i]) by {
        marks_are_keys(view.fields[i]);
    }
    if crate::macros::items::two_keys(view.fields) {
        let (i, j) = choose|i: int, j: int|
            0 <= i < j < view.fields.len() && crate::macros::grammar::has_key(
                (#[trigger] view.fields[i]).attrs,
            ) && crate::macros::grammar::has_key((#[trigger] view.fields[j]).attrs);
        assert(is_marked(view.fields[i]) && is_marked(view.fields[j]));
    } else {
        assert forall|i: int, j: int|
            0 <= i < j < view.fields.len() implies !(is_marked(#[trigger] view.fields[i])
            && is_marked(#[trigger] view.fields[j])) by {
            assert(!(crate::macros::grammar::has_key(view.fields[i].attrs)
                && crate::macros::grammar::has_key(view.fields[j].attrs)));
        }
    }
}

/// Whether the word `key` is all that is in an attribute.
pub open spec fn marks_the_key(attribute: Seq<Token>) -> bool {
    attribute[1].kind matches TokenKind::Group(_, inner) && inner@.len() == 1 && (
    inner@[0].kind matches TokenKind::Ident(text) && text@ == "key"@)
}

/// Whether one of the attributes of a field marks it as the key.
pub open spec fn is_marked(field: FieldView) -> bool {
    exists|n: int| 0 <= n < field.attrs.len() && marks_the_key(#[trigger] field.attrs[n])
}

proof fn marks_are_keys(field: FieldView)
    ensures
        crate::macros::grammar::has_key(field.attrs) <==> is_marked(field),
{
    if crate::macros::grammar::has_key(field.attrs) {
        let n = choose|n: int|
            0 <= n < field.attrs.len() && crate::macros::grammar::is_key(#[trigger] field.attrs[n]);
        assert(marks_the_key(field.attrs[n]));
    }
    if is_marked(field) {
        let n = choose|n: int|
            0 <= n < field.attrs.len() && marks_the_key(#[trigger] field.attrs[n]);
        assert(crate::macros::grammar::is_key(field.attrs[n]));
    }
}

} // verus!
