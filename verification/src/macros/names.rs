//! How generated items are called.
use heck::{ToSnakeCase, ToUpperCamelCase};
use vstd::prelude::*;

verus! {

/// What `heck`'s `to_snake_case` returns for a text.
pub uninterp spec fn snake_case_of(text: Seq<char>) -> Seq<char>;

/// What `heck`'s `to_upper_camel_case` returns for a text.
pub uninterp spec fn upper_camel_case_of(text: Seq<char>) -> Seq<char>;

/// What `str::to_uppercase` returns for a text.
pub uninterp spec fn uppercase_of(text: Seq<char>) -> Seq<char>;

/// Calls `heck`'s `to_snake_case`: `LineCount` becomes `line_count`.
#[verifier::external_body]
fn snake_case(text: &str) -> (r: String)
    ensures
        r@ == snake_case_of(text@),
{
    text.to_snake_case()
}

/// Calls `heck`'s `to_upper_camel_case`: `line_count` becomes `LineCount`.
#[verifier::external_body]
fn upper_camel_case(text: &str) -> (r: String)
    ensures
        r@ == upper_camel_case_of(text@),
{
    text.to_upper_camel_case()
}

/// Calls `str::to_uppercase`: `line_count` becomes `LINE_COUNT`.
#[verifier::external_body]
fn uppercase(text: &str) -> (r: String)
    ensures
        r@ == uppercase_of(text@),
{
    text.to_uppercase()
}

fn joined(front: &str, middle: &str, back: &str) -> (r: String)
    ensures
        r@ == front@ + middle@ + back@,
{
    let mut r: String = String::new();
    r.append(front);
    r.append(middle);
    r.append(back);
    assert(r@ =~= front@ + middle@ + back@);
    r
}

/// How everything that is generated for a keyed or singleton input is called.
#[derive(Debug)]
pub struct InputNames {
    /// Constant with the kind id of the keys.
    pub keys_kind: String,
    /// Constant with the kind id of the data.
    pub data_kind: String,
    /// Kind name of the ingredient that interns the keys.
    pub keys_name: String,
    /// Kind name of the ingredient that stores the data.
    pub data_name: String,
    /// Type of the ingredient that interns the keys.
    pub keys_type: String,
    /// Type of the ingredient that stores the data.
    pub data_type: String,
    /// Struct with the fields that are no key.
    pub data_struct: String,
    /// Trait of databases that hold the ingredients.
    pub has_trait: String,
    /// Method that gives the key ingredient.
    pub keys_accessor: String,
    /// Method that gives the data ingredient.
    pub data_accessor: String,
    /// Function that makes the key ingredient.
    pub make_keys: String,
    /// Function that makes the data ingredient.
    pub make_data: String,
    /// Database field with the key ingredient.
    pub keys_field: String,
    /// Database field with the data ingredient.
    pub data_field: String,
}

/// Whether names are those of the input `name`, which is `snake` in snake case and `upper` in
/// capitals.
pub open spec fn input_named(
    names: InputNames,
    name: Seq<char>,
    snake: Seq<char>,
    upper: Seq<char>,
) -> bool {
    &&& names.keys_kind@ == upper + "_KEYS_KIND"@
    &&& names.data_kind@ == upper + "_DATA_KIND"@
    &&& names.keys_name@ == name + "::keys"@
    &&& names.data_name@ == name + "::data"@
    &&& names.keys_type@ == name + "KeysIngredient"@
    &&& names.data_type@ == name + "DataIngredient"@
    &&& names.data_struct@ == name + "Data"@
    &&& names.has_trait@ == "Has"@ + name + "Ingredient"@
    &&& names.keys_accessor@ == snake + "_keys"@
    &&& names.data_accessor@ == snake + "_data"@
    &&& names.make_keys@ == "make_"@ + snake + "_keys"@
    &&& names.make_data@ == "make_"@ + snake + "_data"@
    &&& names.keys_field@ == snake + "_keys_ingredient"@
    &&& names.data_field@ == snake + "_data_ingredient"@
}

/// The names for an input, given its name in each case.
pub fn name_input(name: &str, snake: &str, upper: &str) -> (r: InputNames)
    ensures
        input_named(r, name@, snake@, upper@),
{
    let r = InputNames {
        keys_kind: joined("", upper, "_KEYS_KIND"),
        data_kind: joined("", upper, "_DATA_KIND"),
        keys_name: joined("", name, "::keys"),
        data_name: joined("", name, "::data"),
        keys_type: joined("", name, "KeysIngredient"),
        data_type: joined("", name, "DataIngredient"),
        data_struct: joined("", name, "Data"),
        has_trait: joined("Has", name, "Ingredient"),
        keys_accessor: joined("", snake, "_keys"),
        data_accessor: joined("", snake, "_data"),
        make_keys: joined("make_", snake, "_keys"),
        make_data: joined("make_", snake, "_data"),
        keys_field: joined("", snake, "_keys_ingredient"),
        data_field: joined("", snake, "_data_ingredient"),
    };
    proof {
        reveal_strlit("");
        assert(""@ + upper@ =~= upper@);
        assert(""@ + name@ =~= name@);
        assert(""@ + snake@ =~= snake@);
    }
    r
}

/// The names for an input.
pub fn input_names(name: &str) -> (r: InputNames)
    ensures
        input_named(r, name@, snake_case_of(name@), uppercase_of(snake_case_of(name@))),
{
    let snake: String = snake_case(name);
    let upper: String = uppercase(snake.as_str());
    name_input(name, snake.as_str(), upper.as_str())
}

/// How everything that is generated for an interned struct is called.
#[derive(Debug)]
pub struct InternedNames {
    /// Constant with the kind id.
    pub kind: String,
    /// Type of the ingredient.
    pub ingredient_type: String,
    /// Struct with the interned fields.
    pub value_struct: String,
    /// Trait of databases that hold the ingredient.
    pub has_trait: String,
    /// Method that gives the ingredient.
    pub accessor: String,
    /// Function that makes the ingredient.
    pub make: String,
    /// Database field with the ingredient.
    pub field: String,
}

/// Whether names are those of the interned struct `name`.
pub open spec fn interned_named(
    names: InternedNames,
    name: Seq<char>,
    snake: Seq<char>,
    upper: Seq<char>,
) -> bool {
    &&& names.kind@ == upper + "_KIND"@
    &&& names.ingredient_type@ == name + "Ingredient"@
    &&& names.value_struct@ == name + "Value"@
    &&& names.has_trait@ == "Has"@ + name + "Ingredient"@
    &&& names.accessor@ == snake + "_ingredient"@
    &&& names.make@ == "make_"@ + snake + "_ingredient"@
    &&& names.field@ == snake + "_ingredient"@
}

/// The names for an interned struct, given its name in each case.
pub fn name_interned(name: &str, snake: &str, upper: &str) -> (r: InternedNames)
    ensures
        interned_named(r, name@, snake@, upper@),
{
    let r = InternedNames {
        kind: joined("", upper, "_KIND"),
        ingredient_type: joined("", name, "Ingredient"),
        value_struct: joined("", name, "Value"),
        has_trait: joined("Has", name, "Ingredient"),
        accessor: joined("", snake, "_ingredient"),
        make: joined("make_", snake, "_ingredient"),
        field: joined("", snake, "_ingredient"),
    };
    proof {
        reveal_strlit("");
        assert(""@ + upper@ =~= upper@);
        assert(""@ + name@ =~= name@);
        assert(""@ + snake@ =~= snake@);
    }
    r
}

/// The names for an interned struct.
pub fn interned_names(name: &str) -> (r: InternedNames)
    ensures
        interned_named(r, name@, snake_case_of(name@), uppercase_of(snake_case_of(name@))),
{
    let snake: String = snake_case(name);
    let upper: String = uppercase(snake.as_str());
    name_interned(name, snake.as_str(), upper.as_str())
}

/// How everything that is generated for a tracked function is called.
#[derive(Debug)]
pub struct TrackedNames {
    /// Constant with the kind id.
    pub kind: String,
    /// Type of the ingredient.
    pub query_type: String,
    /// Trait of databases that hold the ingredient.
    pub has_trait: String,
    /// Method that gives the ingredient.
    pub getter: String,
    /// Function that makes the ingredient.
    pub make: String,
    /// The function with the body that was written.
    pub implementation: String,
    /// Database field with the ingredient.
    pub field: String,
}

/// Whether names are those of the tracked function `name`, which is `snake` in snake case, `pascal`
/// in camel case and `upper` in capitals.
pub open spec fn tracked_named(
    names: TrackedNames,
    name: Seq<char>,
    snake: Seq<char>,
    pascal: Seq<char>,
    upper: Seq<char>,
) -> bool {
    &&& names.kind@ == upper + "_KIND"@
    &&& names.query_type@ == pascal + "Query"@
    &&& names.has_trait@ == "Has"@ + pascal + "Query"@
    &&& names.getter@ == snake + "_query"@
    &&& names.make@ == "make_"@ + snake + "_query"@
    &&& names.implementation@ == "__picante_impl_"@ + name
    &&& names.field@ == snake + "_query"@
}

/// The names for a tracked function, given its name in each case.
pub fn name_tracked(name: &str, snake: &str, pascal: &str, upper: &str) -> (r: TrackedNames)
    ensures
        tracked_named(r, name@, snake@, pascal@, upper@),
{
    let r = TrackedNames {
        kind: joined("", upper, "_KIND"),
        query_type: joined("", pascal, "Query"),
        has_trait: joined("Has", pascal, "Query"),
        getter: joined("", snake, "_query"),
        make: joined("make_", snake, "_query"),
        implementation: joined("__picante_impl_", name, ""),
        field: joined("", snake, "_query"),
    };
    proof {
        reveal_strlit("");
        assert(""@ + upper@ =~= upper@);
        assert(""@ + pascal@ =~= pascal@);
        assert(""@ + snake@ =~= snake@);
        assert("__picante_impl_"@ + name@ + ""@ =~= "__picante_impl_"@ + name@);
    }
    r
}

/// The names for a tracked function.
pub fn tracked_names(name: &str) -> (r: TrackedNames)
    ensures
        tracked_named(
            r,
            name@,
            snake_case_of(name@),
            upper_camel_case_of(name@),
            uppercase_of(name@),
        ),
{
    let snake: String = snake_case(name);
    let pascal: String = upper_camel_case(name);
    let upper: String = uppercase(name);
    name_tracked(name, snake.as_str(), pascal.as_str(), upper.as_str())
}

/// Name of the trait that combines the ingredients of a database.
pub fn db_trait_name(db_name: &str) -> (r: String)
    ensures
        r@ == db_name@ + "Trait"@,
{
    let r: String = joined("", db_name, "Trait");
    proof {
        reveal_strlit("");
        assert(""@ + db_name@ =~= db_name@);
    }
    r
}

/// Name of the struct with the snapshots of a database.
pub fn snapshot_name(db_name: &str) -> (r: String)
    ensures
        r@ == db_name@ + "Snapshot"@,
{
    let r: String = joined("", db_name, "Snapshot");
    proof {
        reveal_strlit("");
        assert(""@ + db_name@ =~= db_name@);
    }
    r
}

/// Two inputs, two interned structs or two tracked functions whose names differ in snake case get
/// different database fields.
pub proof fn field_names_differ(a: Seq<char>, b: Seq<char>)
    requires
        a != b,
    ensures
        a + "_keys_ingredient"@ != b + "_keys_ingredient"@,
        a + "_data_ingredient"@ != b + "_data_ingredient"@,
        a + "_ingredient"@ != b + "_ingredient"@,
        a + "_query"@ != b + "_query"@,
{
    same_ending(a, b, "_keys_ingredient"@);
    same_ending(a, b, "_data_ingredient"@);
    same_ending(a, b, "_ingredient"@);
    same_ending(a, b, "_query"@);
}

proof fn same_ending(a: Seq<char>, b: Seq<char>, end: Seq<char>)
    ensures
        a + end == b + end ==> a == b,
{
    if a + end == b + end {
        assert((a + end).len() == (b + end).len());
        assert(a =~= (a + end).take(a.len() as int));
        assert(b =~= (b + end).take(b.len() as int));
    }
}

} // verus!
