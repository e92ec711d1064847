//! The plan for a database: its fields and how everything is called.
use crate::macros::args::{parse_args, DbArgs, ItemPath};
#[allow(unused_imports)]
use crate::macros::args::{DbArgsView, PathView, Reading};
use crate::macros::grammar::{FieldDecl, StructDecl};
#[allow(unused_imports)]
use crate::macros::grammar::{FieldView, StructView};
use crate::macros::names::{
    db_trait_name, input_names, interned_names, snapshot_name, tracked_names, InputNames,
    InternedNames, TrackedNames,
};
use crate::macros::token::Token;
use vstd::prelude::*;

verus! {

/// Which kind of item a database field is generated for.
#[derive(Debug, Copy, Clone, Eq, PartialEq, Structural)]
pub enum Owner {
    /// An input.
    Input,
    /// An interned struct.
    Interned,
    /// A tracked function.
    Query,
}

/// A database field that is generated: its name, and the item it is for.
#[derive(Debug)]
pub struct GeneratedField {
    /// Its name.
    pub name: String,
    /// Name of the item.
    pub item: String,
    /// Which kind of item that is.
    pub owner: Owner,
    /// Kind name of the ingredient in the field.
    pub kind_name: String,
}

/// What a generated field is: its name, the item's name and kind, and the kind name of the
/// ingredient.
pub type GeneratedView = (Seq<char>, Seq<char>, Owner, Seq<char>);

impl View for GeneratedField {
    type V = GeneratedView;

    open spec fn view(&self) -> GeneratedView {
        (self.name@, self.item@, self.owner, self.kind_name@)
    }
}

/// What several generated fields are.
pub open spec fn generated_views(fields: Seq<GeneratedField>) -> Seq<GeneratedView> {
    fields.map_values(|f: GeneratedField| f@)
}

/// The fields for inputs: two for each, with the keys and the data.
pub open spec fn input_fields(inputs: Seq<PathView>) -> Seq<GeneratedView>
    decreases inputs.len(),
{
    if inputs.len() == 0 {
        Seq::empty()
    } else {
        let name = crate::macros::token::ident_text(inputs.last().1);
        let snake = crate::macros::names::snake_case_of(name);
        input_fields(inputs.drop_last()).push(
            (snake + "_keys_ingredient"@, name, Owner::Input, name + "::keys"@),
        ).push((snake + "_data_ingredient"@, name, Owner::Input, name + "::data"@))
    }
}

/// The fields for interned structs: one for each.
pub open spec fn interned_fields(interned: Seq<PathView>) -> Seq<GeneratedView> {
    interned.map_values(
        |p: PathView|
            {
                let name = crate::macros::token::ident_text(p.1);
                (
                    crate::macros::names::snake_case_of(name) + "_ingredient"@,
                    name,
                    Owner::Interned,
                    name,
                )
            },
    )
}

/// The fields for tracked functions: one for each.
pub open spec fn query_fields(queries: Seq<PathView>) -> Seq<GeneratedView> {
    queries.map_values(
        |p: PathView|
            {
                let name = crate::macros::token::ident_text(p.1);
                (crate::macros::names::snake_case_of(name) + "_query"@, name, Owner::Query, name)
            },
    )
}

/// All generated fields, in the order in which the ingredients are registered.
pub open spec fn generated_fields(args: DbArgsView) -> Seq<GeneratedView> {
    input_fields(args.inputs) + interned_fields(args.interned) + query_fields(args.queries)
}

/// Text of the error for a generated field that is named like a custom one.
pub open spec fn custom_conflict_text(field: GeneratedView) -> Seq<char> {
    "picante: db field name conflict: `"@ + field.0
        + "` is a custom db field and also generated by "@ + (match field.2 {
        Owner::Input => "input"@,
        Owner::Interned => "interned"@,
        Owner::Query => "tracked"@,
    }) + " `"@ + field.1 + "`"@
}

/// Text of the error for a field that is generated twice.
pub open spec fn repeated_text(field: GeneratedView) -> Seq<char> {
    "picante: db field name conflict: `"@ + field.0
        + "` is generated multiple times (check for duplicate/overlapping "@ + (match field.2 {
        Owner::Input => "inputs"@,
        Owner::Interned => "interned items"@,
        Owner::Query => "tracked queries"@,
    }) + ")"@
}

/// Whether a name is one of the two fields that every database has.
pub open spec fn is_reserved(name: Seq<char>) -> bool {
    name == "runtime"@ || name == "ingredients"@
}

/// Whether a field with this name is among several.
pub open spec fn names_field(fields: Seq<GeneratedView>, name: Seq<char>) -> bool {
    exists|i: int| 0 <= i < fields.len() && (#[trigger] fields[i]).0 == name
}

/// Whether generated fields can stand beside custom ones, or the message for the first that cannot.
pub open spec fn fields_accepted(custom: Seq<Seq<char>>, fields: Seq<GeneratedView>) -> Reading<()>
    decreases fields.len(),
{
    if fields.len() == 0 {
        Ok(())
    } else {
        match fields_accepted(custom, fields.drop_last()) {
            Err(message) => Err(message),
            Ok(_) => if custom.contains(fields.last().0) {
                Err(custom_conflict_text(fields.last()))
            } else if is_reserved(fields.last().0) || names_field(
                fields.drop_last(),
                fields.last().0,
            ) {
                Err(repeated_text(fields.last()))
            } else {
                Ok(())
            },
        }
    }
}

/// The names of custom fields.
pub open spec fn custom_names(fields: Seq<FieldView>) -> Seq<Seq<char>> {
    fields.map_values(|f: FieldView| crate::macros::token::ident_text(f.name))
}

/// Text of the error for a custom field that occurs twice.
pub open spec fn duplicate_field_text(name: Seq<char>) -> Seq<char> {
    "picante: duplicate field `"@ + name + "` in db struct"@
}

/// Text of the error for a custom field that is named like one that every database has.
pub open spec fn reserved_text(name: Seq<char>) -> Seq<char> {
    "picante: db field name conflict: `"@ + name + "` is reserved"@
}

/// Whether custom fields are accepted, or the message for why not: a field that occurs twice, or a
/// reserved name.
pub open spec fn custom_accepted(names: Seq<Seq<char>>) -> Reading<()> {
    if !names.no_duplicates() {
        Err(duplicate_field_text(first_repeated_name(names)))
    } else if names.contains("runtime"@) {
        Err(reserved_text("runtime"@))
    } else if names.contains("ingredients"@) {
        Err(reserved_text("ingredients"@))
    } else {
        Ok(())
    }
}

/// The first name that occurred before.
pub open spec fn first_repeated_name(names: Seq<Seq<char>>) -> Seq<char>
    decreases names.len(),
{
    if names.len() == 0 {
        Seq::empty()
    } else if !names.drop_last().no_duplicates() {
        first_repeated_name(names.drop_last())
    } else {
        names.last()
    }
}

/// The message for tokens that are no struct.
pub open spec fn not_a_db_struct() -> Seq<char> {
    "picante: failed to parse db struct"@
}

/// Whether a database can be generated from its arguments and its struct, or the message for why
/// not.
pub open spec fn db_in(attr: Seq<Token>, item: Seq<Token>) -> Reading<(DbArgsView, StructView)> {
    match crate::macros::args::args_from(attr, 0, crate::macros::args::no_args()) {
        Err(message) => Err(message),
        Ok(args) => match crate::macros::grammar::struct_in(item) {
            None => Err(not_a_db_struct()),
            Some(decl) => if decl.generics.len() > 0 {
                Err("picante: #[picante::db] does not support generics"@)
            } else {
                match custom_accepted(custom_names(decl.fields)) {
                    Err(message) => Err(message),
                    Ok(_) => match fields_accepted(
                        custom_names(decl.fields),
                        generated_fields(args),
                    ) {
                        Err(message) => Err(message),
                        Ok(_) => Ok((args, decl)),
                    },
                }
            },
        },
    }
}

/// What is generated for a database.
#[derive(Debug)]
pub struct DbPlan {
    /// The arguments.
    pub args: DbArgs,
    /// The struct, with its custom fields.
    pub decl: StructDecl,
    /// The generated fields, in the order in which the ingredients are registered and persisted.
    pub fields: Vec<GeneratedField>,
    /// How everything is called for each input.
    pub inputs: Vec<InputNames>,
    /// How everything is called for each interned struct.
    pub interned: Vec<InternedNames>,
    /// How everything is called for each tracked function.
    pub queries: Vec<TrackedNames>,
    /// Name of the combined trait.
    pub db_trait: String,
    /// Name of the struct with the snapshots.
    pub snapshot: String,
}

/// Whether names are those of the inputs.
pub open spec fn inputs_named(names: Seq<InputNames>, paths: Seq<PathView>) -> bool {
    &&& names.len() == paths.len()
    &&& forall|i: int|
        0 <= i < paths.len() ==> {
            let name = crate::macros::token::ident_text(paths[i].1);
            let snake = crate::macros::names::snake_case_of(name);
            crate::macros::names::input_named(
                #[trigger] names[i],
                name,
                snake,
                crate::macros::names::uppercase_of(snake),
            )
        }
}

/// Whether names are those of the interned structs.
pub open spec fn interned_are_named(names: Seq<InternedNames>, paths: Seq<PathView>) -> bool {
    &&& names.len() == paths.len()
    &&& forall|i: int|
        0 <= i < paths.len() ==> {
            let name = crate::macros::token::ident_text(paths[i].1);
            let snake = crate::macros::names::snake_case_of(name);
            crate::macros::names::interned_named(
                #[trigger] names[i],
                name,
                snake,
                crate::macros::names::uppercase_of(snake),
            )
        }
}

/// Whether names are those of the tracked functions.
pub open spec fn queries_named(names: Seq<TrackedNames>, paths: Seq<PathView>) -> bool {
    &&& names.len() == paths.len()
    &&& forall|i: int|
        0 <= i < paths.len() ==> {
            let name = crate::macros::token::ident_text(paths[i].1);
            crate::macros::names::tracked_named(
                #[trigger] names[i],
                name,
                crate::macros::names::snake_case_of(name),
                crate::macros::names::upper_camel_case_of(name),
                crate::macros::names::uppercase_of(name),
            )
        }
}

/// Whether the plan for a database came out as it must.
pub open spec fn db_planned(
    attr: Seq<Token>,
    item: Seq<Token>,
    r: Result<DbPlan, String>,
) -> bool {
    match db_in(attr, item) {
        Err(message) => r matches Err(e) && e@ == message,
        Ok((args, decl)) => {
            &&& r matches Ok(plan)
            &&& plan.args@ == args
            &&& plan.decl@ == decl
            &&& generated_views(plan.fields@) == generated_fields(args)
            &&& inputs_named(plan.inputs@, args.inputs)
            &&& interned_are_named(plan.interned@, args.interned)
            &&& queries_named(plan.queries@, args.queries)
            &&& plan.db_trait@ == (match args.db_trait {
                Some(name) => crate::macros::token::ident_text(name),
                None => crate::macros::token::ident_text(decl.name) + "Trait"@,
            })
            &&& plan.snapshot@ == crate::macros::token::ident_text(decl.name) + "Snapshot"@
        },
    }
}

fn is_among_names(names: &Vec<String>, count: usize, name: &String) -> (r: bool)
    requires
        count <= names@.len(),
    ensures
        r == exists|i: int| 0 <= i < count && (#[trigger] names@[i])@ == name@,
{
    let mut i: usize = 0;
    while i < count
        invariant
            i <= count <= names@.len(),
            forall|j: int| 0 <= j < i ==> (#[trigger] names@[j])@ != name@,
        decreases count - i,
    {
        if names[i] == *name {
            return true;
        }
        i = i + 1;
    }
    false
}

fn collect_names(fields: &Vec<FieldDecl>) -> (r: Vec<String>)
    ensures
        r@.len() == fields@.len(),
        forall|i: int|
            0 <= i < r@.len() ==> (#[trigger] r@[i])@ == custom_names(
                crate::macros::grammar::field_views(fields@),
            )[i],
{
    let mut r: Vec<String> = Vec::new();
    let mut i: usize = 0;
    while i < fields.len()
        invariant
            i <= fields@.len(),
            r@.len() == i,
            forall|j: int|
                0 <= j < i ==> (#[trigger] r@[j])@ == crate::macros::token::ident_text(
                    fields@[j].name,
                ),
        decreases fields@.len() - i,
    {
        r.push(fields[i].name.ident_text());
        i = i + 1;
    }
    proof {
        let views = crate::macros::grammar::field_views(fields@);
        assert forall|j: int| 0 <= j < r@.len() implies (#[trigger] r@[j])@ == custom_names(
            views,
        )[j] by {
            assert(views[j] == fields@[j]@);
        }
    }
    r
}

proof fn repeated_prefix(names: Seq<Seq<char>>, n: int)
    requires
        0 < n <= names.len(),
        !names.take(n).no_duplicates(),
    ensures
        !names.no_duplicates(),
        first_repeated_name(names) == first_repeated_name(names.take(n)),
    decreases names.len() - n,
{
    if n < names.len() {
        assert(names.take(n + 1).drop_last() =~= names.take(n));
        let (i, j) = choose|i: int, j: int|
            0 <= i < n && 0 <= j < n && i != j && names.take(n)[i] == names.take(n)[j];
        assert(names.take(n + 1)[i] == names.take(n + 1)[j]);
        repeated_prefix(names, n + 1);
    } else {
        assert(names.take(n) =~= names);
    }
}

fn check_custom(names: &Vec<String>) -> (r: Result<(), String>)
    ensures
        match custom_accepted(names.deep_view()) {
            Ok(_) => r is Ok,
            Err(message) => r matches Err(e) && e@ == message,
        },
{
    let ghost all = names.deep_view();
    let mut i: usize = 0;
    while i < names.len()
        invariant
            i <= names@.len(),
            all == names.deep_view(),
            all.take(i as int).no_duplicates(),
        decreases names@.len() - i,
    {
        let ghost longer = all.take(i + 1);
        assert(longer.drop_last() =~= all.take(i as int));
        assert(longer.last() == names@[i as int]@);
        if is_among_names(names, i, &names[i]) {
            let mut text: String = String::new();
            text.append("picante: duplicate field `");
            text.append(names[i].as_str());
            text.append("` in db struct");
            proof {
                let j = choose|j: int| 0 <= j < i && (#[trigger] names@[j])@ == names@[i as int]@;
                assert(longer[j] == longer[i as int]);
                repeated_prefix(all, i + 1);
                assert(text@ =~= duplicate_field_text(names@[i as int]@));
            }
            return Err(text);
        }
        assert forall|a: int, b: int| 0 <= a < longer.len() && 0 <= b < longer.len() && a
            != b implies longer[a] != longer[b] by {
            if a < i && b < i {
                assert(all.take(i as int)[a] != all.take(i as int)[b]);
            } else if a == i {
                assert(names@[b]@ == longer[b]);
            } else {
                assert(names@[a]@ == longer[a]);
            }
        }
        i = i + 1;
    }
    assert(all.take(i as int) =~= all);
    let runtime: String = "runtime".to_owned();
    let ingredients: String = "ingredients".to_owned();
    let has_runtime: bool = is_among_names(names, names.len(), &runtime);
    let has_ingredients: bool = is_among_names(names, names.len(), &ingredients);
    proof {
        assert(has_runtime == all.contains("runtime"@)) by {
            among_is_contains(names@, all, "runtime"@);
        }
        assert(has_ingredients == all.contains("ingredients"@)) by {
            among_is_contains(names@, all, "ingredients"@);
        }
    }
    if has_runtime || has_ingredients {
        let mut text: String = String::new();
        text.append("picante: db field name conflict: `");
        text.append(
            if has_runtime {
                "runtime"
            } else {
                "ingredients"
            },
        );
        text.append("` is reserved");
        return Err(text);
    }
    Ok(())
}

proof fn among_is_contains(names: Seq<String>, views: Seq<Seq<char>>, name: Seq<char>)
    requires
        names.len() == views.len(),
        forall|i: int| 0 <= i < names.len() ==> (#[trigger] names[i])@ == views[i],
    ensures
        views.contains(name) <==> exists|i: int|
            0 <= i < names.len() && (#[trigger] names[i])@ == name,
{
    if views.contains(name) {
        let i = choose|i: int| 0 <= i < views.len() && views[i] == name;
        assert(names[i]@ == name);
    }
    if exists|i: int| 0 <= i < names.len() && (#[trigger] names[i])@ == name {
        let i = choose|i: int| 0 <= i < names.len() && (#[trigger] names[i])@ == name;
        assert(views[i] == name);
    }
}

fn is_field_named(fields: &Vec<GeneratedField>, count: usize, name: &String) -> (r: bool)
    requires
        count <= fields@.len(),
    ensures
        r == names_field(generated_views(fields@).take(count as int), name@),
{
    let ghost all = generated_views(fields@).take(count as int);
    let mut i: usize = 0;
    while i < count
        invariant
            i <= count <= fields@.len(),
            all == generated_views(fields@).take(count as int),
            forall|j: int| 0 <= j < i ==> (#[trigger] all[j]).0 != name@,
        decreases count - i,
    {
        assert(all[i as int] == fields@[i as int]@);
        if fields[i].name == *name {
            return true;
        }
        i = i + 1;
    }
    false
}

proof fn refused_prefix(custom: Seq<Seq<char>>, fields: Seq<GeneratedView>, n: int)
    requires
        0 <= n <= fields.len(),
        fields_accepted(custom, fields.take(n)) is Err,
    ensures
        fields_accepted(custom, fields) is Err,
        fields_accepted(custom, fields)->Err_0 == fields_accepted(custom, fields.take(n))->Err_0,
    decreases fields.len() - n,
{
    if n < fields.len() {
        assert(fields.take(n + 1).drop_last() =~= fields.take(n));
        refused_prefix(custom, fields, n + 1);
    } else {
        assert(fields.take(n) =~= fields);
    }
}

fn write_custom_conflict(field: &GeneratedField) -> (r: String)
    ensures
        r@ == custom_conflict_text(field@),
{
    let mut text: String = String::new();
    text.append("picante: db field name conflict: `");
    text.append(field.name.as_str());
    text.append("` is a custom db field and also generated by ");
    text.append(
        match field.owner {
            Owner::Input => "input",
            Owner::Interned => "interned",
            Owner::Query => "tracked",
        },
    );
    text.append(" `");
    text.append(field.item.as_str());
    text.append("`");
    assert(text@ =~= custom_conflict_text(field@));
    text
}

fn write_repeated(field: &GeneratedField) -> (r: String)
    ensures
        r@ == repeated_text(field@),
{
    let mut text: String = String::new();
    text.append("picante: db field name conflict: `");
    text.append(field.name.as_str());
    text.append("` is generated multiple times (check for duplicate/overlapping ");
    text.append(
        match field.owner {
            Owner::Input => "inputs",
            Owner::Interned => "interned items",
            Owner::Query => "tracked queries",
        },
    );
    text.append(")");
    assert(text@ =~= repeated_text(field@));
    text
}

/// Refuse generated fields that cannot stand beside custom ones or beside each other.
pub fn check_fields(custom: &Vec<String>, fields: &Vec<GeneratedField>) -> (r: Result<(), String>)
    ensures
        match fields_accepted(custom.deep_view(), generated_views(fields@)) {
            Ok(_) => r is Ok,
            Err(message) => r matches Err(e) && e@ == message,
        },
{
    let ghost names = custom.deep_view();
    let ghost all = generated_views(fields@);
    let runtime: String = "runtime".to_owned();
    let ingredients: String = "ingredients".to_owned();
    let mut i: usize = 0;
    while i < fields.len()
        invariant
            i <= fields@.len(),
            names == custom.deep_view(),
            all == generated_views(fields@),
            runtime@ == "runtime"@,
            ingredients@ == "ingredients"@,
            fields_accepted(names, all.take(i as int)) is Ok,
        decreases fields@.len() - i,
    {
        let ghost longer = all.take(i + 1);
        assert(longer.drop_last() =~= all.take(i as int));
        assert(longer.last() == fields@[i as int]@);
        let field: &GeneratedField = &fields[i];
        proof {
            among_is_contains(custom@, names, field.name@);
        }
        if is_among_names(custom, custom.len(), &field.name) {
            proof {
                refused_prefix(names, all, i + 1);
            }
            return Err(write_custom_conflict(field));
        }
        if field.name == runtime || field.name == ingredients || is_field_named(
            fields,
            i,
            &field.name,
        ) {
            proof {
                refused_prefix(names, all, i + 1);
            }
            return Err(write_repeated(field));
        }
        i = i + 1;
    }
    assert(all.take(i as int) =~= all);
    Ok(())
}

fn name_inputs(paths: &Vec<ItemPath>, fields: &mut Vec<GeneratedField>) -> (r: Vec<InputNames>)
    ensures
        inputs_named(r@, crate::macros::args::path_views(paths@)),
        generated_views(final(fields)@) == generated_views(old(fields)@) + input_fields(
            crate::macros::args::path_views(paths@),
        ),
{
    let ghost views = crate::macros::args::path_views(paths@);
    let ghost start = generated_views(fields@);
    let mut r: Vec<InputNames> = Vec::new();
    let mut i: usize = 0;
    assert(start + input_fields(views.take(0)) =~= start);
    while i < paths.len()
        invariant
            i <= paths@.len(),
            views == crate::macros::args::path_views(paths@),
            inputs_named(r@, views.take(i as int)),
            generated_views(fields@) == start + input_fields(views.take(i as int)),
        decreases paths@.len() - i,
    {
        let ghost shorter = views.take(i as int);
        let ghost longer = views.take(i + 1);
        let ghost before = fields@;
        let ghost done = r@;
        assert(longer.drop_last() =~= shorter);
        assert(longer.last() == paths@[i as int]@);
        let name: String = paths[i].name.ident_text();
        let names: InputNames = input_names(name.as_str());
        fields.push(
            GeneratedField {
                name: names.keys_field.clone(),
                item: name.clone(),
                owner: Owner::Input,
                kind_name: names.keys_name.clone(),
            },
        );
        fields.push(
            GeneratedField {
                name: names.data_field.clone(),
                item: name,
                owner: Owner::Input,
                kind_name: names.data_name.clone(),
            },
        );
        r.push(names);
        proof {
            let snake = crate::macros::names::snake_case_of(name@);
            assert(generated_views(fields@) =~= generated_views(before).push(
                (snake + "_keys_ingredient"@, name@, Owner::Input, name@ + "::keys"@),
            ).push(
                (snake + "_data_ingredient"@, name@, Owner::Input, name@ + "::data"@),
            ));
            assert(generated_views(fields@) =~= start + input_fields(longer));
            assert forall|j: int| 0 <= j < longer.len() implies {
                let name = crate::macros::token::ident_text(longer[j].1);
                let snake = crate::macros::names::snake_case_of(name);
                crate::macros::names::input_named(
                    #[trigger] r@[j],
                    name,
                    snake,
                    crate::macros::names::uppercase_of(snake),
                )
            } by {
                if j < i {
                    assert(r@[j] == done[j]);
                    assert(longer[j] == shorter[j]);
                }
            }
        }
        i = i + 1;
    }
    assert(views.take(i as int) =~= views);
    r
}

fn name_all_interned(paths: &Vec<ItemPath>, fields: &mut Vec<GeneratedField>) -> (r: Vec<
    InternedNames,
>)
    ensures
        interned_are_named(r@, crate::macros::args::path_views(paths@)),
        generated_views(final(fields)@) == generated_views(old(fields)@) + interned_fields(
            crate::macros::args::path_views(paths@),
        ),
{
    let ghost views = crate::macros::args::path_views(paths@);
    let ghost start = generated_views(fields@);
    let mut r: Vec<InternedNames> = Vec::new();
    let mut i: usize = 0;
    assert(start + interned_fields(views).take(0) =~= start);
    while i < paths.len()
        invariant
            i <= paths@.len(),
            views == crate::macros::args::path_views(paths@),
            interned_are_named(r@, views.take(i as int)),
            generated_views(fields@) == start + interned_fields(views).take(i as int),
        decreases paths@.len() - i,
    {
        let ghost shorter = views.take(i as int);
        let ghost longer = views.take(i + 1);
        let ghost before = fields@;
        let ghost done = r@;
        assert(views[i as int] == paths@[i as int]@);
        let name: String = paths[i].name.ident_text();
        let names: InternedNames = interned_names(name.as_str());
        fields.push(
            GeneratedField {
                name: names.field.clone(),
                item: name.clone(),
                owner: Owner::Interned,
                kind_name: name,
            },
        );
        r.push(names);
        proof {
            let snake = crate::macros::names::snake_case_of(name@);
            assert(generated_views(fields@) =~= generated_views(before).push(
                (snake + "_ingredient"@, name@, Owner::Interned, name@),
            ));
            assert(interned_fields(views)[i as int] == (
                snake + "_ingredient"@,
                name@,
                Owner::Interned,
                name@,
            ));
            assert(generated_views(fields@) =~= start + interned_fields(views).take(i + 1));
            assert forall|j: int| 0 <= j < longer.len() implies {
                let name = crate::macros::token::ident_text(longer[j].1);
                let snake = crate::macros::names::snake_case_of(name);
                crate::macros::names::interned_named(
                    #[trigger] r@[j],
                    name,
                    snake,
                    crate::macros::names::uppercase_of(snake),
                )
            } by {
                if j < i {
                    assert(r@[j] == done[j]);
                    assert(longer[j] == shorter[j]);
                }
            }
        }
        i = i + 1;
    }
    assert(views.take(i as int) =~= views);
    assert(interned_fields(views).take(i as int) =~= interned_fields(views));
    r
}

fn name_queries(paths: &Vec<ItemPath>, fields: &mut Vec<GeneratedField>) -> (r: Vec<TrackedNames>)
    ensures
        queries_named(r@, crate::macros::args::path_views(paths@)),
        generated_views(final(fields)@) == generated_views(old(fields)@) + query_fields(
            crate::macros::args::path_views(paths@),
        ),
{
    let ghost views = crate::macros::args::path_views(paths@);
    let ghost start = generated_views(fields@);
    let mut r: Vec<TrackedNames> = Vec::new();
    let mut i: usize = 0;
    assert(start + query_fields(views).take(0) =~= start);
    while i < paths.len()
        invariant
            i <= paths@.len(),
            views == crate::macros::args::path_views(paths@),
            queries_named(r@, views.take(i as int)),
            generated_views(fields@) == start + query_fields(views).take(i as int),
        decreases paths@.len() - i,
    {
        let ghost shorter = views.take(i as int);
        let ghost longer = views.take(i + 1);
        let ghost before = fields@;
        let ghost done = r@;
        assert(views[i as int] == paths@[i as int]@);
        let name: String = paths[i].name.ident_text();
        let names: TrackedNames = tracked_names(name.as_str());
        fields.push(
            GeneratedField {
                name: names.field.clone(),
                item: name.clone(),
                owner: Owner::Query,
                kind_name: name,
            },
        );
        r.push(names);
        proof {
            let snake = crate::macros::names::snake_case_of(name@);
            assert(generated_views(fields@) =~= generated_views(before).push(
                (snake + "_query"@, name@, Owner::Query, name@),
            ));
            assert(query_fields(views)[i as int] == (
                snake + "_query"@,
                name@,
                Owner::Query,
                name@,
            ));
            assert(generated_views(fields@) =~= start + query_fields(views).take(i + 1));
            assert forall|j: int| 0 <= j < longer.len() implies {
                let name = crate::macros::token::ident_text(longer[j].1);
                crate::macros::names::tracked_named(
                    #[trigger] r@[j],
                    name,
                    crate::macros::names::snake_case_of(name),
                    crate::macros::names::upper_camel_case_of(name),
                    crate::macros::names::uppercase_of(name),
                )
            } by {
                if j < i {
                    assert(r@[j] == done[j]);
                    assert(longer[j] == shorter[j]);
                }
            }
        }
        i = i + 1;
    }
    assert(views.take(i as int) =~= views);
    assert(query_fields(views).take(i as int) =~= query_fields(views));
    r
}

/// Plan what is generated for a database.
pub fn plan_db(attr: &[Token], item: &[Token]) -> (r: Result<DbPlan, String>)
    ensures
        db_planned(attr@, item@, r),
{
    let args = match parse_args(attr) {
        Ok(args) => args,
        Err(message) => {
            return Err(message);
        },
    };
    let decl = match StructDecl::parse(item) {
        Some(decl) => decl,
        None => {
            return Err("picante: failed to parse db struct".to_owned());
        },
    };
    if decl.generics.len() > 0 {
        return Err("picante: #[picante::db] does not support generics".to_owned());
    }
    let custom: Vec<String> = collect_names(&decl.fields);
    assert(custom.deep_view() =~= custom_names(decl@.fields));
    match check_custom(&custom) {
        Ok(_) => {},
        Err(message) => {
            return Err(message);
        },
    }
    let mut fields: Vec<GeneratedField> = Vec::new();
    assert(generated_views(fields@) =~= Seq::empty());
    let inputs: Vec<InputNames> = name_inputs(&args.inputs, &mut fields);
    let interned: Vec<InternedNames> = name_all_interned(&args.interned, &mut fields);
    let queries: Vec<TrackedNames> = name_queries(&args.queries, &mut fields);
    assert(generated_views(fields@) =~= generated_fields(args@));
    match check_fields(&custom, &fields) {
        Ok(_) => {},
        Err(message) => {
            return Err(message);
        },
    }
    let db_name: String = decl.name.ident_text();
    let db_trait: String = match &args.db_trait {
        Some(name) => name.ident_text(),
        None => db_trait_name(db_name.as_str()),
    };
    let snapshot: String = snapshot_name(db_name.as_str());
    Ok(DbPlan { args, decl, fields, inputs, interned, queries, db_trait, snapshot })
}

/// Where generated fields are accepted, no field of the database is named like another: the
/// generated fields differ from each other, from the custom fields and from the two that every
/// database has.
pub proof fn accepted_fields_are_distinct(
    custom: Seq<Seq<char>>,
    fields: Seq<GeneratedView>,
    i: int,
    j: int,
)
    requires
        fields_accepted(custom, fields) is Ok,
        0 <= j < i < fields.len(),
    ensures
        fields[i].0 != fields[j].0,
        !custom.contains(fields[i].0),
        !custom.contains(fields[j].0),
        !is_reserved(fields[i].0),
        !is_reserved(fields[j].0),
    decreases fields.len(),
{
    let shorter = fields.drop_last();
    if i < shorter.len() {
        accepted_fields_are_distinct(custom, shorter, i, j);
    } else {
        assert(shorter[j].0 == fields[j].0);
        accepted_field_is_free(custom, shorter, j);
    }
}

proof fn accepted_field_is_free(custom: Seq<Seq<char>>, fields: Seq<GeneratedView>, j: int)
    requires
        fields_accepted(custom, fields) is Ok,
        0 <= j < fields.len(),
    ensures
        !custom.contains(fields[j].0),
        !is_reserved(fields[j].0),
    decreases fields.len(),
{
    if j < fields.len() - 1 {
        accepted_field_is_free(custom, fields.drop_last(), j);
    }
}

} // verus!
