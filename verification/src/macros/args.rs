//! The arguments of a database: which inputs, interned structs and tracked functions it holds.
use crate::macros::token::{copy_tokens, same_text, Delimiter, Token, TokenKind};
use vstd::prelude::*;

verus! {

/// A path to an item: what stands before its name, and the name.
#[derive(Debug)]
pub struct ItemPath {
    /// What stands before the name, with the last `::`.
    pub prefix: Vec<Token>,
    /// The name.
    pub name: Token,
}

/// What a path is.
pub type PathView = (Seq<Token>, Token);

impl View for ItemPath {
    type V = PathView;

    open spec fn view(&self) -> PathView {
        (self.prefix@, self.name)
    }
}

/// What several paths are.
pub open spec fn path_views(paths: Seq<ItemPath>) -> Seq<PathView> {
    paths.map_values(|p: ItemPath| p@)
}

/// What is read from tokens, or the message for why not.
pub type Reading<T> = Result<T, Seq<char>>;

/// Whether a token can stand in a path.
pub open spec fn in_path(token: Token) -> bool {
    crate::macros::token::is_ident(token) || crate::macros::token::is_punct(token, ':')
}

/// The path that tokens are: identifiers and colons, the last an identifier.
pub open spec fn path_in(tokens: Seq<Token>) -> Reading<PathView> {
    if tokens.len() == 0 {
        Err("picante: expected an item path"@)
    } else if exists|i: int| 0 <= i < tokens.len() && !in_path(#[trigger] tokens[i]) {
        Err("picante: expected a path like `foo::Bar` (no generics)"@)
    } else if !crate::macros::token::is_ident(tokens.last()) {
        Err("picante: expected a path ending in an identifier"@)
    } else {
        Ok((tokens.drop_last(), tokens.last()))
    }
}

/// The brackets before a group.
pub open spec fn opening(delimiter: Delimiter) -> Seq<char> {
    match delimiter {
        Delimiter::Parenthesis => seq!['('],
        Delimiter::Brace => seq!['{'],
        Delimiter::Bracket => seq!['['],
        Delimiter::Invisible => Seq::empty(),
    }
}

/// The brackets behind a group.
pub open spec fn closing(delimiter: Delimiter) -> Seq<char> {
    match delimiter {
        Delimiter::Parenthesis => seq![')'],
        Delimiter::Brace => seq!['}'],
        Delimiter::Bracket => seq![']'],
        Delimiter::Invisible => Seq::empty(),
    }
}

/// The text of tokens, one right behind the other.
pub open spec fn tokens_text(tokens: Seq<Token>) -> Seq<char>
    decreases tokens,
{
    if tokens.len() == 0 {
        Seq::empty()
    } else {
        tokens_text(tokens.drop_last()) + (match tokens.last().kind {
            TokenKind::Ident(text) => text@,
            TokenKind::Punct(c, _) => seq![c],
            TokenKind::Literal(text) => text@,
            TokenKind::Group(delimiter, inner) => opening(delimiter) + tokens_text(inner@)
                + closing(delimiter),
        })
    }
}

/// Whether a character is white space.
pub open spec fn is_space(c: char) -> bool {
    let n = c as int;
    ||| 0x9 <= n <= 0xd
    ||| n == 0x20
    ||| n == 0x85
    ||| n == 0xa0
    ||| n == 0x1680
    ||| 0x2000 <= n <= 0x200a
    ||| 0x2028 <= n <= 0x2029
    ||| n == 0x202f
    ||| n == 0x205f
    ||| n == 0x3000
}

/// A text without its white space.
pub open spec fn spaceless(text: Seq<char>) -> Seq<char>
    decreases text.len(),
{
    if text.len() == 0 {
        Seq::empty()
    } else if is_space(text.last()) {
        spaceless(text.drop_last())
    } else {
        spaceless(text.drop_last()).push(text.last())
    }
}

/// The text of an item of a list, without white space.
pub open spec fn item_text(tokens: Seq<Token>) -> Seq<char> {
    spaceless(tokens_text(tokens))
}

fn space(c: char) -> (r: bool)
    ensures
        r == is_space(c),
{
    let n: u32 = c as u32;
    (0x9 <= n && n <= 0xd) || n == 0x20 || n == 0x85 || n == 0xa0 || n == 0x1680 || (0x2000 <= n
        && n <= 0x200a) || (0x2028 <= n && n <= 0x2029) || n == 0x202f || n == 0x205f || n == 0x3000
}

fn without_space(text: &str) -> (r: String)
    ensures
        r@ == spaceless(text@),
{
    let len: usize = text.unicode_len();
    let mut r: String = String::new();
    let mut i: usize = 0;
    while i < len
        invariant
            i <= len,
            len == text@.len(),
            r@ == spaceless(text@.take(i as int)),
        decreases len - i,
    {
        assert(text@.take(i + 1).drop_last() =~= text@.take(i as int));
        assert(text@.take(i + 1).last() == text@[i as int]);
        let c: char = text.get_char(i);
        if !space(c) {
            r.push(c);
        }
        i = i + 1;
    }
    assert(text@.take(i as int) =~= text@);
    r
}

fn write_tokens(tokens: &[Token]) -> (r: String)
    ensures
        r@ == tokens_text(tokens@),
    decreases tokens@,
{
    let mut r: String = String::new();
    let mut i: usize = 0;
    while i < tokens.len()
        invariant
            i <= tokens@.len(),
            r@ == tokens_text(tokens@.take(i as int)),
        decreases tokens@.len() - i,
    {
        assert(tokens@.take(i + 1).drop_last() =~= tokens@.take(i as int));
        assert(tokens@.take(i + 1).last() == tokens@[i as int]);
        let ghost before = r@;
        match &tokens[i].kind {
            TokenKind::Ident(text) => {
                r.append(text.as_str());
            },
            TokenKind::Punct(c, _) => {
                r.push(*c);
                assert(r@ =~= before + seq![*c]);
            },
            TokenKind::Literal(text) => {
                r.append(text.as_str());
            },
            TokenKind::Group(delimiter, inner) => {
                let content: String = write_tokens(inner.as_slice());
                match delimiter {
                    Delimiter::Parenthesis => r.push('('),
                    Delimiter::Brace => r.push('{'),
                    Delimiter::Bracket => r.push('['),
                    Delimiter::Invisible => {},
                }
                assert(r@ =~= before + opening(*delimiter));
                r.append(content.as_str());
                match delimiter {
                    Delimiter::Parenthesis => r.push(')'),
                    Delimiter::Brace => r.push('}'),
                    Delimiter::Bracket => r.push(']'),
                    Delimiter::Invisible => {},
                }
                assert(r@ =~= before + (opening(*delimiter) + content@ + closing(*delimiter)));
            },
        }
        i = i + 1;
    }
    assert(tokens@.take(i as int) =~= tokens@);
    r
}

fn write_item(tokens: &[Token]) -> (r: String)
    ensures
        r@ == item_text(tokens@),
{
    let text: String = write_tokens(tokens);
    without_space(text.as_str())
}

/// Whether reading came out as it must: what was read, or its message.
pub open spec fn path_read(r: Result<ItemPath, String>, view: Reading<PathView>) -> bool {
    match view {
        Ok(path) => r matches Ok(out) && out@ == path,
        Err(message) => r matches Err(e) && e@ == message,
    }
}

impl ItemPath {
    /// Read a path.
    pub fn parse(tokens: &[Token]) -> (r: Result<ItemPath, String>)
        ensures
            path_read(r, path_in(tokens@)),
    {
        let len: usize = tokens.len();
        if len == 0 {
            return Err("picante: expected an item path".to_owned());
        }
        let mut i: usize = 0;
        while i < len
            invariant
                i <= len,
                len == tokens@.len(),
                len > 0,
                forall|j: int| 0 <= j < i ==> in_path(#[trigger] tokens@[j]),
            decreases len - i,
        {
            if !tokens[i].is_ident() && !tokens[i].is_punct(':') {
                assert(!in_path(tokens@[i as int]));
                return Err("picante: expected a path like `foo::Bar` (no generics)".to_owned());
            }
            i = i + 1;
        }
        if !tokens[len - 1].is_ident() {
            return Err("picante: expected a path ending in an identifier".to_owned());
        }
        let prefix: Vec<Token> = copy_tokens(tokens, 0, len - 1);
        assert(prefix@ =~= tokens@.drop_last());
        Ok(ItemPath { prefix, name: tokens[len - 1].clone() })
    }
}

/// Where the first comma at or after `at` stands, or the end.
pub open spec fn comma_from(tokens: Seq<Token>, at: int) -> int
    decreases tokens.len() - at,
{
    if 0 <= at < tokens.len() && !crate::macros::token::is_punct(tokens[at], ',') {
        comma_from(tokens, at + 1)
    } else {
        at
    }
}

/// The stretches between commas from `at` on, without the empty ones.
pub open spec fn segments_from(tokens: Seq<Token>, at: int) -> Seq<Seq<Token>>
    decreases tokens.len() - at,
{
    let end = comma_from(tokens, at);
    let rest = if 0 <= at <= end < tokens.len() {
        segments_from(tokens, end + 1)
    } else {
        Seq::empty()
    };
    if end <= at {
        rest
    } else {
        seq![tokens.subrange(at, end)] + rest
    }
}

/// Text of the error for an item that is listed twice.
pub open spec fn duplicate_item_text(item: Seq<char>, list: Seq<char>) -> Seq<char> {
    "picante: duplicate item `"@ + item + "` in `"@ + list + "` list"@
}

/// Whether a text is that of one of several items.
pub open spec fn listed(segments: Seq<Seq<Token>>, text: Seq<char>) -> bool {
    exists|j: int| 0 <= j < segments.len() && item_text(#[trigger] segments[j]) == text
}

/// The paths that several stretches are, none of them twice.
pub open spec fn paths_in(segments: Seq<Seq<Token>>, list: Seq<char>) -> Reading<Seq<PathView>>
    decreases segments.len(),
{
    if segments.len() == 0 {
        Ok(Seq::empty())
    } else {
        match paths_in(segments.drop_last(), list) {
            Err(message) => Err(message),
            Ok(paths) => if listed(segments.drop_last(), item_text(segments.last())) {
                Err(duplicate_item_text(item_text(segments.last()), list))
            } else {
                match path_in(segments.last()) {
                    Err(message) => Err(message),
                    Ok(path) => Ok(paths.push(path)),
                }
            },
        }
    }
}

/// The paths in a list.
pub open spec fn list_in(tokens: Seq<Token>, list: Seq<char>) -> Reading<Seq<PathView>> {
    paths_in(segments_from(tokens, 0), list)
}

/// Whether reading a list came out as it must.
pub open spec fn list_read(
    r: Result<Vec<ItemPath>, String>,
    view: Reading<Seq<PathView>>,
) -> bool {
    match view {
        Ok(paths) => r matches Ok(out) && path_views(out@) == paths,
        Err(message) => r matches Err(e) && e@ == message,
    }
}

fn split_segments(tokens: &[Token]) -> (r: Vec<Vec<Token>>)
    ensures
        crate::macros::grammar::token_lists(r@) == segments_from(tokens@, 0),
{
    let ghost all = segments_from(tokens@, 0);
    let mut segments: Vec<Vec<Token>> = Vec::new();
    let mut start: usize = 0;
    assert(crate::macros::grammar::token_lists(segments@) + all =~= all);
    loop
        invariant
            start <= tokens@.len(),
            all == segments_from(tokens@, 0),
            crate::macros::grammar::token_lists(segments@) + segments_from(tokens@, start as int)
                == all,
        decreases tokens@.len() - start,
    {
        let ghost before = crate::macros::grammar::token_lists(segments@);
        let mut end: usize = start;
        while end < tokens.len() && !tokens[end].is_punct(',')
            invariant
                start <= end <= tokens@.len(),
                comma_from(tokens@, start as int) == comma_from(tokens@, end as int),
            decreases tokens@.len() - end,
        {
            end = end + 1;
        }
        let ghost rest = if end < tokens@.len() {
            segments_from(tokens@, end + 1)
        } else {
            Seq::empty()
        };
        if end > start {
            segments.push(copy_tokens(tokens, start, end));
            assert(crate::macros::grammar::token_lists(segments@) =~= before.push(
                tokens@.subrange(start as int, end as int),
            ));
            assert(crate::macros::grammar::token_lists(segments@) + rest =~= before
                + segments_from(tokens@, start as int));
        }
        if end >= tokens.len() {
            assert(crate::macros::grammar::token_lists(segments@) =~= all);
            return segments;
        }
        start = end + 1;
    }
}

fn is_listed(segments: &Vec<Vec<Token>>, count: usize, text: &String) -> (r: bool)
    requires
        count <= segments@.len(),
    ensures
        r == listed(
            crate::macros::grammar::token_lists(segments@).take(count as int),
            text@,
        ),
{
    let ghost all = crate::macros::grammar::token_lists(segments@).take(count as int);
    let mut i: usize = 0;
    while i < count
        invariant
            i <= count <= segments@.len(),
            all == crate::macros::grammar::token_lists(segments@).take(count as int),
            forall|j: int| 0 <= j < i ==> item_text(#[trigger] all[j]) != text@,
        decreases count - i,
    {
        assert(all[i as int] == segments@[i as int]@);
        let other: String = write_item(segments[i].as_slice());
        if other == *text {
            return true;
        }
        i = i + 1;
    }
    false
}

/// Read a list of paths.
pub fn parse_list(tokens: &[Token], list: &str) -> (r: Result<Vec<ItemPath>, String>)
    ensures
        list_read(r, list_in(tokens@, list@)),
{
    let segments: Vec<Vec<Token>> = split_segments(tokens);
    let ghost all = crate::macros::grammar::token_lists(segments@);
    let mut paths: Vec<ItemPath> = Vec::new();
    let mut i: usize = 0;
    assert(path_views(paths@) =~= Seq::empty());
    while i < segments.len()
        invariant
            i <= segments@.len(),
            all == crate::macros::grammar::token_lists(segments@),
            all == segments_from(tokens@, 0),
            paths_in(all.take(i as int), list@) matches Ok(p) && p == path_views(paths@),
        decreases segments@.len() - i,
    {
        let ghost longer = all.take(i + 1);
        let ghost before = path_views(paths@);
        assert(longer.drop_last() =~= all.take(i as int));
        assert(longer.last() == segments@[i as int]@);
        let text: String = write_item(segments[i].as_slice());
        if is_listed(&segments, i, &text) {
            let mut message: String = String::new();
            message.append("picante: duplicate item `");
            message.append(text.as_str());
            message.append("` in `");
            message.append(list);
            message.append("` list");
            assert(message@ =~= duplicate_item_text(text@, list@));
            proof {
                failed_prefix(all, list@, i + 1);
            }
            return Err(message);
        }
        match ItemPath::parse(segments[i].as_slice()) {
            Err(message) => {
                proof {
                    failed_prefix(all, list@, i + 1);
                }
                return Err(message);
            },
            Ok(path) => {
                paths.push(path);
                assert(path_views(paths@) =~= before.push(path@));
            },
        }
        i = i + 1;
    }
    assert(all.take(i as int) =~= all);
    Ok(paths)
}

proof fn failed_prefix(segments: Seq<Seq<Token>>, list: Seq<char>, n: int)
    requires
        0 <= n <= segments.len(),
        paths_in(segments.take(n), list) is Err,
    ensures
        paths_in(segments, list) is Err,
        paths_in(segments, list)->Err_0 == paths_in(segments.take(n), list)->Err_0,
    decreases segments.len() - n,
{
    if n < segments.len() {
        assert(segments.take(n + 1).drop_last() =~= segments.take(n));
        failed_prefix(segments, list, n + 1);
    } else {
        assert(segments.take(n) =~= segments);
    }
}

/// The arguments of a database.
#[derive(Debug)]
pub struct DbArgs {
    /// The inputs.
    pub inputs: Vec<ItemPath>,
    /// The interned structs.
    pub interned: Vec<ItemPath>,
    /// The tracked functions.
    pub queries: Vec<ItemPath>,
    /// Name of the combined trait, where one was asked for.
    pub db_trait: Option<Token>,
}

/// What the arguments of a database are.
#[verifier::ext_equal]
pub ghost struct DbArgsView {
    /// The inputs.
    pub inputs: Seq<PathView>,
    /// The interned structs.
    pub interned: Seq<PathView>,
    /// The tracked functions.
    pub queries: Seq<PathView>,
    /// Name of the combined trait.
    pub db_trait: Option<Token>,
}

impl View for DbArgs {
    type V = DbArgsView;

    open spec fn view(&self) -> DbArgsView {
        DbArgsView {
            inputs: path_views(self.inputs@),
            interned: path_views(self.interned@),
            queries: path_views(self.queries@),
            db_trait: self.db_trait,
        }
    }
}

/// No arguments.
pub open spec fn no_args() -> DbArgsView {
    DbArgsView {
        inputs: Seq::empty(),
        interned: Seq::empty(),
        queries: Seq::empty(),
        db_trait: None,
    }
}

/// The message for something that is no argument.
pub open spec fn expected_argument() -> Seq<char> {
    "picante: expected `inputs(...)`, `interned(...)`, or `tracked(...)`"@
}

/// The arguments with one more, `key(items)`.
pub open spec fn with_argument(
    args: DbArgsView,
    key: Seq<char>,
    items: Seq<PathView>,
) -> Reading<DbArgsView> {
    if key == "inputs"@ || key == "input"@ {
        Ok(DbArgsView { inputs: args.inputs + items, ..args })
    } else if key == "interned"@ {
        Ok(DbArgsView { interned: args.interned + items, ..args })
    } else if key == "tracked"@ {
        Ok(DbArgsView { queries: args.queries + items, ..args })
    } else if key == "db_trait"@ {
        if items.len() != 1 {
            Err("picante: `db_trait(...)` expects exactly one identifier"@)
        } else if items[0].0.len() > 0 {
            Err("picante: `db_trait(...)` expects a simple identifier, not a path"@)
        } else if args.db_trait is Some {
            Err("picante: `db_trait(...)` specified multiple times"@)
        } else {
            Ok(DbArgsView { db_trait: Some(items[0].1), ..args })
        }
    } else {
        Err(
            "picante: unknown #[picante::db] key (expected `inputs`, `interned`, `tracked`, `db_trait`)"@,
        )
    }
}

/// The arguments that are read from `at` on, after `args`.
pub open spec fn args_from(tokens: Seq<Token>, at: int, args: DbArgsView) -> Reading<DbArgsView>
    decreases tokens.len() - at,
{
    if at < 0 || at >= tokens.len() {
        Ok(args)
    } else if crate::macros::token::is_punct(tokens[at], ',') {
        args_from(tokens, at + 1, args)
    } else if !crate::macros::token::is_ident(tokens[at]) || at + 1 >= tokens.len() || !(
    tokens[at + 1].kind is Group) {
        Err(expected_argument())
    } else if !crate::macros::token::is_group(tokens[at + 1], Delimiter::Parenthesis) {
        Err("picante: expected parentheses, e.g. `inputs(...)`"@)
    } else {
        let key = crate::macros::token::ident_text(tokens[at]);
        match list_in(crate::macros::token::inside(tokens[at + 1]), key) {
            Err(message) => Err(message),
            Ok(items) => match with_argument(args, key, items) {
                Err(message) => Err(message),
                Ok(more) => args_from(tokens, at + 2, more),
            },
        }
    }
}

/// Whether reading arguments came out as it must.
pub open spec fn args_read(r: Result<DbArgs, String>, view: Reading<DbArgsView>) -> bool {
    match view {
        Ok(args) => r matches Ok(out) && out@ == args,
        Err(message) => r matches Err(e) && e@ == message,
    }
}

fn extend_paths(paths: &mut Vec<ItemPath>, more: Vec<ItemPath>)
    ensures
        path_views(final(paths)@) == path_views(old(paths)@) + path_views(more@),
{
    let mut more = more;
    let ghost added = path_views(more@);
    paths.append(&mut more);
    assert(path_views(paths@) =~= path_views(old(paths)@) + added);
}

fn add_argument(args: &mut DbArgs, key: &str, items: Vec<ItemPath>) -> (r: Result<(), String>)
    ensures
        match with_argument(old(args)@, key@, path_views(items@)) {
            Ok(more) => r is Ok && final(args)@ == more,
            Err(message) => r matches Err(e) && e@ == message,
        },
{
    if same_text(key, "inputs") || same_text(key, "input") {
        extend_paths(&mut args.inputs, items);
        return Ok(());
    }
    if same_text(key, "interned") {
        extend_paths(&mut args.interned, items);
        return Ok(());
    }
    if same_text(key, "tracked") {
        extend_paths(&mut args.queries, items);
        return Ok(());
    }
    if !same_text(key, "db_trait") {
        return Err(
            "picante: unknown #[picante::db] key (expected `inputs`, `interned`, `tracked`, `db_trait`)".to_owned(),
        );
    }
    let ghost views = path_views(items@);
    if items.len() != 1 {
        return Err("picante: `db_trait(...)` expects exactly one identifier".to_owned());
    }
    assert(views[0] == items@[0]@);
    if items[0].prefix.len() > 0 {
        return Err(
            "picante: `db_trait(...)` expects a simple identifier, not a path".to_owned(),
        );
    }
    if args.db_trait.is_some() {
        return Err("picante: `db_trait(...)` specified multiple times".to_owned());
    }
    args.db_trait = Some(items[0].name.clone());
    Ok(())
}

/// Read the arguments of a database.
pub fn parse_args(tokens: &[Token]) -> (r: Result<DbArgs, String>)
    ensures
        args_read(r, args_from(tokens@, 0, no_args())),
{
    let mut args = DbArgs {
        inputs: Vec::new(),
        interned: Vec::new(),
        queries: Vec::new(),
        db_trait: None,
    };
    assert(args@ =~= no_args());
    let mut at: usize = 0;
    while at < tokens.len()
        invariant
            at <= tokens@.len(),
            args_from(tokens@, 0, no_args()) == args_from(tokens@, at as int, args@),
        decreases tokens@.len() - at,
    {
        if tokens[at].is_punct(',') {
            at = at + 1;
        } else {
            if !tokens[at].is_ident() || tokens.len() - at < 2 {
                return Err(
                    "picante: expected `inputs(...)`, `interned(...)`, or `tracked(...)`".to_owned(),
                );
            }
            let key: String = tokens[at].ident_text();
            match &tokens[at + 1].kind {
                TokenKind::Group(delimiter, inner) => {
                    if *delimiter != Delimiter::Parenthesis {
                        return Err(
                            "picante: expected parentheses, e.g. `inputs(...)`".to_owned(),
                        );
                    }
                    match parse_list(inner.as_slice(), key.as_str()) {
                        Err(message) => {
                            return Err(message);
                        },
                        Ok(items) => {
                            match add_argument(&mut args, key.as_str(), items) {
                                Err(message) => {
                                    return Err(message);
                                },
                                Ok(_) => {},
                            }
                        },
                    }
                },
                _ => {
                    return Err(
                        "picante: expected `inputs(...)`, `interned(...)`, or `tracked(...)`".to_owned(),
                    );
                },
            }
            at = at + 2;
        }
    }
    Ok(args)
}

} // verus!
