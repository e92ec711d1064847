//! What the attribute macros decide.
use picante::frame::FrameStack;
use picante::inflight::{InFlightEntry, InFlightRegistry, SharedCache};
use picante::ingredient::access::{Access, AccessAction, AccessEvent, ComputeOutcome};
use picante::ingredient::{DerivedCore, InputIngredient, InternedIngredient};
use picante::macros::args::{parse_args, parse_list, ItemPath};
use picante::macros::db::{check_fields, plan_db, GeneratedField, Owner};
use picante::macros::grammar::{FnItem, StructDecl, StructItem};
use picante::macros::items::{plan_input, plan_interned, plan_tracked};
use picante::macros::names::{input_names, interned_names, name_tracked, tracked_names};
use picante::macros::token::{Delimiter, Token, TokenKind};
use picante::macros::types::{parse_db_generic, strip_ref_inner_ident, take_return_ok_type};
use picante::{Key, PicanteResult, QueryKindId, Runtime, RuntimeId};
use std::str::FromStr;
use std::sync::{Arc, Mutex};

fn convert(stream: proc_macro2::TokenStream, next: &mut usize) -> Vec<Token> {
    let mut out = Vec::new();
    for tree in stream {
        *next += 1;
        let span = *next;
        let kind = match tree {
            proc_macro2::TokenTree::Ident(ident) => TokenKind::Ident(ident.to_string()),
            proc_macro2::TokenTree::Punct(p) => {
                TokenKind::Punct(p.as_char(), p.spacing() == proc_macro2::Spacing::Joint)
            }
            proc_macro2::TokenTree::Literal(l) => TokenKind::Literal(l.to_string()),
            proc_macro2::TokenTree::Group(g) => {
                let delimiter = match g.delimiter() {
                    proc_macro2::Delimiter::Parenthesis => Delimiter::Parenthesis,
                    proc_macro2::Delimiter::Brace => Delimiter::Brace,
                    proc_macro2::Delimiter::Bracket => Delimiter::Bracket,
                    proc_macro2::Delimiter::None => Delimiter::Invisible,
                };
                TokenKind::Group(delimiter, Arc::new(convert(g.stream(), next)))
            }
        };
        out.push(Token { kind, span });
    }
    out
}

fn tokens(text: &str) -> Vec<Token> {
    convert(proc_macro2::TokenStream::from_str(text).unwrap(), &mut 0)
}

fn show(tokens: &[Token]) -> String {
    let mut out = String::new();
    for token in tokens {
        match &token.kind {
            TokenKind::Ident(text) | TokenKind::Literal(text) => out.push_str(text),
            TokenKind::Punct(c, _) => out.push(*c),
            TokenKind::Group(delimiter, inner) => {
                let (open, close) = match delimiter {
                    Delimiter::Parenthesis => ("(", ")"),
                    Delimiter::Brace => ("{", "}"),
                    Delimiter::Bracket => ("[", "]"),
                    Delimiter::Invisible => ("", ""),
                };
                out.push_str(open);
                out.push_str(&show(inner));
                out.push_str(close);
            }
        }
        out.push(' ');
    }
    out.trim_end().to_string()
}

type Entry = Mutex<InFlightEntry<u64>>;

/// Get a query whose value is computed by `compute`.
fn get(
    core: &mut DerivedCore<u64>,
    runtime: &mut Runtime,
    key: Key,
    compute: &mut dyn FnMut(&mut FrameStack) -> PicanteResult<u64>,
) -> PicanteResult<u64> {
    let mut cache: SharedCache<u64> = SharedCache::new();
    let mut registry: InFlightRegistry<Entry> = InFlightRegistry::new();
    let mut stack = FrameStack::new();
    let fresh: Arc<Entry> = Arc::new(Mutex::new(InFlightEntry::new()));
    let mut access = Access::begin(core, &mut stack, key, true)?;
    let mut event = AccessEvent::Poll;
    loop {
        let step = access.advance(
            core,
            runtime,
            &mut cache,
            &mut registry,
            &mut stack,
            &fresh,
            None,
            event,
        );
        event = match step.action {
            AccessAction::Return(result) => return Ok(*result?.value.unwrap()),
            AccessAction::Run { .. } => AccessEvent::Computed(match compute(&mut stack) {
                Ok(value) => ComputeOutcome::Value { value: Arc::new(value), unchanged: false },
                Err(error) => ComputeOutcome::Failed(error),
            }),
            _ => panic!("expected to run or to return"),
        };
    }
}

#[test]
fn macros_basic_flow() {
    let input = plan_input(&tokens(
        "pub struct Text { #[key] pub key: String, pub value: String }",
    ))
    .unwrap();
    assert_eq!(input.key, Some(0));
    let query = plan_tracked(&tokens(
        "pub async fn len<DB: HasTextIngredient>(db: &DB, text: Text) -> PicanteResult<u64> { 0 }",
    ))
    .unwrap();
    assert!(query.returns_result);
    assert_eq!(show(&query.key.key_type), "Text");
    assert_eq!(show(&query.output_type), "u64");

    // The entity is an interned key with data under its id.
    let mut runtime = Runtime::new(RuntimeId(1));
    let mut keys: InternedIngredient<String> =
        InternedIngredient::new(QueryKindId::from_str("Text::keys"), "Text::keys");
    let mut data: InputIngredient<String> =
        InputIngredient::new(QueryKindId::from_str("Text::data"), "Text::data");
    let mut core: DerivedCore<u64> = DerivedCore::new(QueryKindId::from_str("len"), "len");
    let encoded =
        Key::encode_facet(facet_postcard::to_vec(&"a".to_string()).map_err(|e| format!("{e:?}")));
    let text = keys.intern(encoded, "a".to_string()).unwrap();
    data.set(&mut runtime, Key::for_u32(text.0), "hello".to_string(), |a, b| a == b);

    let mut calls = 0;
    for _ in 0..2 {
        let value = get(&mut core, &mut runtime, Key::for_u32(text.0).unwrap(), &mut |stack| {
            calls += 1;
            Ok(data.get(stack, Key::for_u32(text.0))?.unwrap().len() as u64)
        });
        assert_eq!(value.unwrap(), 5);
    }
    assert_eq!(calls, 1);
}

#[test]
fn macros_tuple_keys_and_unit_key() {
    let sum = plan_tracked(&tokens("pub async fn sum<DB>(db: &DB, x: u32, y: u32) -> u64 { 0 }"))
        .unwrap();
    assert_eq!(show(&sum.key.key_type), "(u32 , u32)");
    assert_eq!(show(&sum.key.value), "(x , y)");
    assert!(!sum.returns_result);
    let unit = plan_tracked(&tokens("pub async fn unit_key<DB>(db: &DB) -> u64 { 42 }")).unwrap();
    assert_eq!(show(&unit.key.key_type), "()");
    assert_eq!(show(&unit.key.value), "()");

    let mut runtime = Runtime::new(RuntimeId(1));
    let mut core: DerivedCore<u64> = DerivedCore::new(QueryKindId::from_str("sum"), "sum");
    let mut calls = 0;
    let mut run = |x: u32, y: u32| {
        let key = Key::from_bytes(facet_postcard::to_vec(&(x, y)).unwrap());
        let value = get(&mut core, &mut runtime, key, &mut |_| {
            calls += 1;
            Ok((x as u64) + (y as u64))
        });
        (value.unwrap(), calls)
    };
    assert_eq!(run(1, 2), (3, 1));
    assert_eq!(run(1, 2), (3, 1));
    assert_eq!(run(2, 3), (5, 2));
    assert_eq!(run(2, 3), (5, 2));

    let mut core: DerivedCore<u64> = DerivedCore::new(QueryKindId::from_str("unit"), "unit");
    let mut calls = 0;
    for _ in 0..2 {
        let key = Key::from_bytes(facet_postcard::to_vec(&()).unwrap());
        let value = get(&mut core, &mut runtime, key, &mut |_| {
            calls += 1;
            Ok(42)
        });
        assert_eq!(value.unwrap(), 42);
    }
    assert_eq!(calls, 1);
}

#[test]
fn macros_interned_works() {
    let plan = plan_interned(&tokens("pub struct Word { pub text: String }")).unwrap();
    assert_eq!(plan.names.accessor, "word_ingredient");

    let mut words: InternedIngredient<String> =
        InternedIngredient::new(QueryKindId::from_str("Word"), "Word");
    let encode = |text: &str| {
        Key::encode_facet(facet_postcard::to_vec(&(text.to_string(),)).map_err(|e| format!("{e:?}")))
    };
    let w1 = words.intern(encode("hello"), "hello".to_string()).unwrap();
    let w2 = words.intern(encode("hello"), "hello".to_string()).unwrap();
    assert_eq!(w1, w2);
    assert_eq!(*words.get(&mut FrameStack::new(), w1).unwrap(), "hello".to_string());
}

#[test]
fn persistable_ingredients_returns_all_ingredients() {
    let plan = plan_db(
        &tokens("inputs(DbTestText), interned(DbTestWord), tracked(db_test_len)"),
        &tokens("struct ConvenienceDb {}"),
    )
    .unwrap();

    // Should have: 2 input ingredients (keys + data), 1 interned, 1 tracked = 4 total
    assert_eq!(plan.fields.len(), 4);

    let kind_names: Vec<&str> = plan.fields.iter().map(|f| f.kind_name.as_str()).collect();
    assert!(kind_names.contains(&"DbTestText::keys"));
    assert!(kind_names.contains(&"DbTestText::data"));
    assert!(kind_names.contains(&"DbTestWord"));
    assert!(kind_names.contains(&"db_test_len"));
}

#[test]
fn names_are_derived_from_the_item() {
    let input = input_names("SourceFile");
    assert_eq!(input.keys_kind, "SOURCE_FILE_KEYS_KIND");
    assert_eq!(input.data_kind, "SOURCE_FILE_DATA_KIND");
    assert_eq!(input.keys_type, "SourceFileKeysIngredient");
    assert_eq!(input.data_type, "SourceFileDataIngredient");
    assert_eq!(input.data_struct, "SourceFileData");
    assert_eq!(input.has_trait, "HasSourceFileIngredient");
    assert_eq!(input.keys_accessor, "source_file_keys");
    assert_eq!(input.data_accessor, "source_file_data");
    assert_eq!(input.make_keys, "make_source_file_keys");
    assert_eq!(input.make_data, "make_source_file_data");
    assert_eq!(input.keys_field, "source_file_keys_ingredient");
    assert_eq!(input.data_field, "source_file_data_ingredient");

    let interned = interned_names("CharSet");
    assert_eq!(interned.kind, "CHAR_SET_KIND");
    assert_eq!(interned.ingredient_type, "CharSetIngredient");
    assert_eq!(interned.value_struct, "CharSetValue");
    assert_eq!(interned.has_trait, "HasCharSetIngredient");
    assert_eq!(interned.accessor, "char_set_ingredient");
    assert_eq!(interned.make, "make_char_set_ingredient");

    let query = tracked_names("line_count");
    assert_eq!(query.kind, "LINE_COUNT_KIND");
    assert_eq!(query.query_type, "LineCountQuery");
    assert_eq!(query.has_trait, "HasLineCountQuery");
    assert_eq!(query.getter, "line_count_query");
    assert_eq!(query.make, "make_line_count_query");
    assert_eq!(query.implementation, "__picante_impl_line_count");
    assert_eq!(query.field, "line_count_query");
    assert_eq!(name_tracked("f", "s", "P", "U").has_trait, "HasPQuery");
}

#[test]
fn functions_are_read() {
    let item = FnItem::parse(&tokens(
        "#[doc = \"Counts.\"] #[inline] pub async fn f<DB: A<B> + C>(db: &DB, m: Map<K, V>) -> Result<A, B> { 1 }",
    ))
    .unwrap();
    assert_eq!(show(&item.vis), "pub");
    assert!(item.is_async);
    assert_eq!(item.name.ident_text(), "f");
    assert_eq!(show(&item.generics), "< DB : A < B > + C >");
    assert_eq!(item.params.len(), 2);
    assert_eq!(item.params[1].name.ident_text(), "m");
    assert_eq!(show(&item.params[1].param_type), "Map < K , V >");
    assert_eq!(show(&item.return_type), "Result < A , B >");
    assert_eq!(show(&[item.body]), "{1}");
    assert_eq!(item.doc_attrs.len(), 1);
    assert_eq!(item.other_attrs.len(), 1);
    assert_eq!(show(&item.other_attrs[0]), "# [inline]");

    let plain = FnItem::parse(&tokens("fn g() {}")).unwrap();
    assert!(plain.vis.is_empty());
    assert!(!plain.is_async);
    assert!(plain.generics.is_empty());
    assert!(plain.params.is_empty());
    assert_eq!(show(&plain.return_type), "()");

    for text in ["", "struct S {}", "fn", "fn g", "fn g()", "fn g() -> {}", "pub(crate) fn g() {}"] {
        assert_eq!(FnItem::parse(&tokens(text)).unwrap_err(), "picante: failed to parse function");
    }
}

#[test]
fn structs_are_read() {
    let item = StructItem::parse(&tokens(
        "#[doc = \"A file.\"] #[derive(Debug)] pub struct F { #[key] pub path: String, #[x] n: Vec<(A, B)>, }",
    ))
    .unwrap();
    assert_eq!(item.name.ident_text(), "F");
    assert_eq!(item.doc_attrs.len(), 1);
    assert_eq!(item.fields.len(), 2);
    assert!(item.fields[0].is_key);
    assert!(item.fields[0].attrs.is_empty());
    assert_eq!(show(&item.fields[0].vis), "pub");
    assert_eq!(show(&item.fields[0].ty), "String");
    assert!(!item.fields[1].is_key);
    assert_eq!(item.fields[1].attrs.len(), 1);
    assert!(item.fields[1].vis.is_empty());
    assert_eq!(show(&item.fields[1].ty), "Vec < (A , B) >");

    let decl = StructDecl::parse(&tokens("#[derive(Debug)] struct D {}")).unwrap();
    assert_eq!(decl.attrs.len(), 1);
    assert!(decl.fields.is_empty());

    for text in ["", "fn f() {}", "struct T(u32);", "struct S { a }", "struct S { a: }"] {
        assert_eq!(StructItem::parse(&tokens(text)).unwrap_err(), "picante: failed to parse struct");
    }
}

#[test]
fn the_database_parameter_is_checked() {
    let (name, bounds) = parse_db_generic(&tokens("<DB: A + B<C, D>>")).unwrap();
    assert_eq!(name.ident_text(), "DB");
    assert_eq!(show(&bounds), "A + B < C , D >");
    let (name, bounds) = parse_db_generic(&tokens("<DB>")).unwrap();
    assert_eq!(name.ident_text(), "DB");
    assert!(bounds.is_empty());

    let refused = |text: &str| parse_db_generic(&tokens(text)).unwrap_err();
    assert_eq!(
        refused(""),
        "picante: #[picante::tracked] requires a generic DB param, e.g. `fn foo<DB: ...>(db: &DB, ...)`"
    );
    assert_eq!(refused("DB"), "picante: failed to parse generics");
    assert_eq!(
        refused("<DB, T>"),
        "picante: #[picante::tracked] currently supports exactly one type parameter (DB)"
    );
    assert_eq!(refused("<>"), "picante: expected `<DB: ...>`");
    assert_eq!(refused("<DB = X>"), "picante: expected `<DB: ...>`");
    assert_eq!(
        refused("<'a>"),
        "picante: lifetime generic params are not supported (use a type param `DB`)"
    );

    assert_eq!(strip_ref_inner_ident(&tokens("&DB")).unwrap().ident_text(), "DB");
    assert_eq!(strip_ref_inner_ident(&tokens("&'a DB")).unwrap().ident_text(), "DB");
    assert!(strip_ref_inner_ident(&tokens("&mut DB")).is_none());
    assert!(strip_ref_inner_ident(&tokens("DB")).is_none());
    assert!(strip_ref_inner_ident(&tokens("&a::DB")).is_none());
}

#[test]
fn the_value_type_is_taken_from_the_return_type() {
    let take = |text: &str| take_return_ok_type(&tokens(text)).map(|(t, wrapped)| (show(&t), wrapped));
    assert_eq!(take("u64"), Ok(("u64".to_string(), false)));
    assert_eq!(take("Vec<u8>"), Ok(("Vec < u8 >".to_string(), false)));
    assert_eq!(
        take("picante::PicanteResult<Map<A, B>>"),
        Ok(("Map < A , B >".to_string(), true))
    );
    assert_eq!(take("PicanteResult<A, B>"), Ok(("A".to_string(), true)));
    assert_eq!(take("PicanteResult<, B>"), Err("picante: expected generic argument".to_string()));
}

#[test]
fn tracked_functions_are_checked() {
    let refused = |text: &str| plan_tracked(&tokens(text)).unwrap_err();
    assert_eq!(
        refused("fn f() {}"),
        "picante: #[picante::tracked] requires a `db` parameter"
    );
    assert_eq!(
        refused("fn f<DB>(x: &DB) {}"),
        "picante: first parameter must be named `db`"
    );
    assert_eq!(
        refused("pub async fn foo(db: &DB) -> u64 { 0 }"),
        "picante: #[picante::tracked] requires a generic DB param, e.g. `fn foo<DB: ...>(db: &DB, ...)`"
    );
    assert_eq!(
        refused("pub async fn foo<DB, T>(db: &DB) -> u64 { 0 }"),
        "picante: #[picante::tracked] currently supports exactly one type parameter (DB)"
    );
    assert_eq!(
        refused("fn f<DB>(db: DB) {}"),
        "picante: `db` must be `&DB` (with `DB` as a generic type param)"
    );
    assert_eq!(
        refused("fn f<DB>(db: &Other) {}"),
        "picante: `db` parameter type must be `&DB`"
    );
    assert_eq!(refused("struct S {}"), "picante: failed to parse function");
    let plan = plan_tracked(&tokens("fn f<DB: A>(db: &DB, only: u8) {}")).unwrap();
    assert_eq!(show(&plan.key.key_type), "u8");
    assert_eq!(show(&plan.key.value), "only");
    assert_eq!(show(&plan.db_bounds), "A");
}

#[test]
fn inputs_and_interned_structs_are_checked() {
    let single = plan_input(&tokens("struct Config { debug: bool, timeout: u64 }")).unwrap();
    assert_eq!(single.key, None);
    assert_eq!(single.item.fields.len(), 2);
    assert_eq!(
        plan_input(&tokens("struct S<T> { a: T }")).unwrap_err(),
        "picante: #[picante::input] does not support generics"
    );
    assert_eq!(
        plan_input(&tokens("struct S { #[key] a: A, #[key] b: B }")).unwrap_err(),
        "picante: #[picante::input] requires exactly one field marked #[key]"
    );
    assert_eq!(
        plan_interned(&tokens("struct S<T> { a: T }")).unwrap_err(),
        "picante: #[picante::interned] does not support generics"
    );
}

#[test]
fn arguments_of_a_database_are_read() {
    let args = parse_args(&tokens(
        "inputs(a::B, C), interned(D), tracked(e::f), input(G,), db_trait(Db)",
    ))
    .unwrap();
    assert_eq!(args.inputs.len(), 3);
    assert_eq!(show(&args.inputs[0].prefix), "a : :");
    assert_eq!(args.inputs[0].name.ident_text(), "B");
    assert_eq!(args.inputs[2].name.ident_text(), "G");
    assert_eq!(args.interned.len(), 1);
    assert_eq!(args.queries.len(), 1);
    assert_eq!(args.db_trait.unwrap().ident_text(), "Db");
    assert!(parse_args(&tokens("")).unwrap().inputs.is_empty());

    let refused = |text: &str| parse_args(&tokens(text)).unwrap_err();
    let expected = "picante: expected `inputs(...)`, `interned(...)`, or `tracked(...)`";
    assert_eq!(refused("inputs"), expected);
    assert_eq!(refused("inputs A"), expected);
    assert_eq!(refused("1"), expected);
    assert_eq!(refused("inputs[A]"), "picante: expected parentheses, e.g. `inputs(...)`");
    assert_eq!(
        refused("other(A)"),
        "picante: unknown #[picante::db] key (expected `inputs`, `interned`, `tracked`, `db_trait`)"
    );
    assert_eq!(
        refused("inputs(A, B, A)"),
        "picante: duplicate item `A` in `inputs` list"
    );
    assert_eq!(
        refused("tracked(a::b, a :: b)"),
        "picante: duplicate item `a::b` in `tracked` list"
    );
    assert_eq!(
        refused("inputs(a1, a 1)"),
        "picante: duplicate item `a1` in `inputs` list"
    );
    assert_eq!(
        refused("inputs(a(b){c}[d], A)"),
        "picante: expected a path like `foo::Bar` (no generics)"
    );
    assert_eq!(
        refused("inputs(a, \"x\", a)"),
        "picante: expected a path like `foo::Bar` (no generics)"
    );
    assert_eq!(
        refused("inputs(Vec<u8>)"),
        "picante: expected a path like `foo::Bar` (no generics)"
    );
    assert_eq!(refused("inputs(a::)"), "picante: expected a path ending in an identifier");
    assert_eq!(
        refused("db_trait(A, B)"),
        "picante: `db_trait(...)` expects exactly one identifier"
    );
    assert_eq!(
        refused("db_trait(a::B)"),
        "picante: `db_trait(...)` expects a simple identifier, not a path"
    );
    assert_eq!(
        refused("db_trait(A), db_trait(B)"),
        "picante: `db_trait(...)` specified multiple times"
    );
    assert_eq!(ItemPath::parse(&[]).unwrap_err(), "picante: expected an item path");
    assert_eq!(parse_list(&tokens(", A,, B ,"), "x").unwrap().len(), 2);
}

#[test]
fn fields_of_a_database_are_checked() {
    let plan = plan_db(
        &tokens("inputs(SourceFile), tracked(line_count)"),
        &tokens("pub struct Database { pub extra: u32 }"),
    )
    .unwrap();
    assert_eq!(plan.db_trait, "DatabaseTrait");
    assert_eq!(plan.snapshot, "DatabaseSnapshot");
    let names: Vec<&str> = plan.fields.iter().map(|f| f.name.as_str()).collect();
    assert_eq!(
        names,
        ["source_file_keys_ingredient", "source_file_data_ingredient", "line_count_query"]
    );
    assert_eq!(
        plan_db(&tokens("db_trait(Db)"), &tokens("struct D {}")).unwrap().db_trait,
        "Db"
    );

    let refused = |attr: &str, item: &str| plan_db(&tokens(attr), &tokens(item)).unwrap_err();
    assert_eq!(refused("x", "struct D {}"), parse_args(&tokens("x")).unwrap_err());
    assert_eq!(refused("", "fn f() {}"), "picante: failed to parse db struct");
    assert_eq!(
        refused("", "struct D<T> { a: T }"),
        "picante: #[picante::db] does not support generics"
    );
    assert_eq!(
        refused("", "struct D { a: A, b: B, a: C }"),
        "picante: duplicate field `a` in db struct"
    );
    assert_eq!(
        refused("", "struct D { ingredients: A, runtime: B }"),
        "picante: db field name conflict: `runtime` is reserved"
    );
    assert_eq!(
        refused("", "struct D { ingredients: A }"),
        "picante: db field name conflict: `ingredients` is reserved"
    );
    assert_eq!(
        refused("inputs(A)", "struct D { a_data_ingredient: u8 }"),
        "picante: db field name conflict: `a_data_ingredient` is a custom db field and also generated by input `A`"
    );
    assert_eq!(
        refused("interned(A)", "struct D { a_ingredient: u8 }"),
        "picante: db field name conflict: `a_ingredient` is a custom db field and also generated by interned `A`"
    );
    assert_eq!(
        refused("tracked(q)", "struct D { q_query: u8 }"),
        "picante: db field name conflict: `q_query` is a custom db field and also generated by tracked `q`"
    );
    assert_eq!(
        refused("inputs(A), inputs(A)", "struct D {}"),
        "picante: db field name conflict: `a_keys_ingredient` is generated multiple times (check for duplicate/overlapping inputs)"
    );
    assert_eq!(
        refused("interned(x::A, y::A)", "struct D {}"),
        "picante: db field name conflict: `a_ingredient` is generated multiple times (check for duplicate/overlapping interned items)"
    );
    assert_eq!(
        refused("tracked(x::q, y::q)", "struct D {}"),
        "picante: db field name conflict: `q_query` is generated multiple times (check for duplicate/overlapping tracked queries)"
    );

    let field = |name: &str| GeneratedField {
        name: name.to_string(),
        item: "I".to_string(),
        owner: Owner::Query,
        kind_name: "I".to_string(),
    };
    assert!(check_fields(&vec!["c".to_string()], &vec![field("a"), field("b")]).is_ok());
    assert!(check_fields(&vec![], &vec![field("a"), field("a")]).is_err());
    assert!(check_fields(&vec![], &vec![field("runtime")]).is_err());
}

#[test]
fn spans_are_handed_on() {
    let source = tokens("struct S { a: Vec<u8> }");
    let decl = StructDecl::parse(&source).unwrap();
    assert_eq!(decl.name.span, source[1].span);
}
