//! What is read from the arguments of a database.
#[allow(unused_imports)]
use crate::macros::args::{DbArgsView, PathView, Reading};
#[allow(unused_imports)]
use crate::macros::token::Delimiter;
use crate::macros::token::{Token, TokenKind};
use vstd::prelude::*;

verus! {

/// Whether no token of several is a comma.
pub open spec fn has_no_comma(tokens: Seq<Token>) -> bool {
    forall|i: int|
        0 <= i < tokens.len() ==> !(#[trigger] tokens[i].kind matches TokenKind::Punct(c, _) && c
            == ',')
}

/// Whether a token is a comma.
pub open spec fn is_comma(token: Token) -> bool {
    token.kind matches TokenKind::Punct(c, _) && c == ','
}

proof fn commas_are_found_later(tokens: Seq<Token>, at: int)
    requires
        0 <= at <= tokens.len(),
    ensures
        at <= crate::macros::args::comma_from(tokens, at) <= tokens.len(),
    decreases tokens.len() - at,
{
    if at < tokens.len() && !crate::macros::token::is_punct(tokens[at], ',') {
        commas_are_found_later(tokens, at + 1);
    }
}

proof fn commas_are_found_at_the_same_place(tokens: Seq<Token>, from: int, at: int)
    requires
        0 <= from <= at <= tokens.len(),
    ensures
        crate::macros::args::comma_from(tokens, at) == from + crate::macros::args::comma_from(
            tokens.skip(from),
            at - from,
        ),
    decreases tokens.len() - at,
{
    if at < tokens.len() {
        assert(tokens.skip(from)[at - from] == tokens[at]);
        if !crate::macros::token::is_punct(tokens[at], ',') {
            commas_are_found_at_the_same_place(tokens, from, at + 1);
        }
    }
}

proof fn first_comma_is_found(tokens: Seq<Token>, at: int, end: int)
    requires
        0 <= at <= end < tokens.len(),
        is_comma(tokens[end]),
        forall|i: int| at <= i < end ==> !is_comma(#[trigger] tokens[i]),
    ensures
        crate::macros::args::comma_from(tokens, at) == end,
    decreases end - at,
{
    if at < end {
        assert(!is_comma(tokens[at]));
        first_comma_is_found(tokens, at + 1, end);
    }
}

proof fn no_comma_is_found(tokens: Seq<Token>, at: int)
    requires
        has_no_comma(tokens),
        0 <= at <= tokens.len(),
    ensures
        crate::macros::args::comma_from(tokens, at) == tokens.len(),
    decreases tokens.len() - at,
{
    if at < tokens.len() {
        assert(!is_comma(tokens[at]));
        no_comma_is_found(tokens, at + 1);
    }
}

proof fn segments_are_the_same_later(tokens: Seq<Token>, from: int, at: int)
    requires
        0 <= from <= at <= tokens.len(),
    ensures
        crate::macros::args::segments_from(tokens, at) == crate::macros::args::segments_from(
            tokens.skip(from),
            at - from,
        ),
    decreases tokens.len() - at,
{
    let rest = tokens.skip(from);
    commas_are_found_at_the_same_place(tokens, from, at);
    commas_are_found_later(tokens, at);
    let end = crate::macros::args::comma_from(tokens, at);
    assert(tokens.subrange(at, end) =~= rest.subrange(at - from, end - from));
    if end < tokens.len() {
        segments_are_the_same_later(tokens, from, end + 1);
    }
}

/// A list is split at its commas, and empty pieces do not count: a list without a comma is one
/// piece, nothing is none, and what stands before and behind a comma is split by itself.
pub proof fn lists_are_split_at_commas(a: Seq<Token>, comma: Token, b: Seq<Token>)
    requires
        is_comma(comma),
    ensures
        has_no_comma(a) && a.len() > 0 ==> crate::macros::args::segments_from(a, 0) == seq![a],
        crate::macros::args::segments_from(Seq::empty(), 0).len() == 0,
        crate::macros::args::segments_from(a.push(comma) + b, 0)
            == crate::macros::args::segments_from(a, 0) + crate::macros::args::segments_from(b, 0),
    decreases a.len(),
{
    let whole = a.push(comma) + b;
    if has_no_comma(a) {
        no_comma_is_found(a, 0);
        assert(a.subrange(0, a.len() as int) =~= a);
        assert forall|i: int| 0 <= i < a.len() implies !is_comma(#[trigger] whole[i]) by {
            assert(whole[i] == a[i]);
            assert(!is_comma(a[i]));
        }
        assert(whole[a.len() as int] == comma);
        first_comma_is_found(whole, 0, a.len() as int);
        assert(whole.subrange(0, a.len() as int) =~= a);
        segments_are_the_same_later(whole, a.len() as int + 1, a.len() as int + 1);
        assert(whole.skip(a.len() as int + 1) =~= b);
        if a.len() > 0 {
            assert(crate::macros::args::segments_from(a, 0) =~= seq![a]);
        }
        assert(crate::macros::args::segments_from(whole, 0) =~= crate::macros::args::segments_from(
            a,
            0,
        ) + crate::macros::args::segments_from(b, 0));
    } else {
        commas_are_found_later(a, 0);
        let end = crate::macros::args::comma_from(a, 0);
        let bad = choose|i: int|
            0 <= i < a.len() && (#[trigger] a[i].kind matches TokenKind::Punct(c, _) && c == ',');
        first_comma_stops(a, 0, bad);
        before_first_comma(a, 0);
        assert forall|i: int| 0 <= i < end implies !is_comma(#[trigger] whole[i]) by {
            assert(whole[i] == a[i]);
        }
        assert(whole[end] == a[end]);
        first_comma_is_found(whole, 0, end);
        assert(whole.subrange(0, end) =~= a.subrange(0, end));
        let rest = a.skip(end + 1);
        lists_are_split_at_commas(rest, comma, b);
        segments_are_the_same_later(a, end + 1, end + 1);
        segments_are_the_same_later(whole, end + 1, end + 1);
        assert(whole.skip(end + 1) =~= rest.push(comma) + b);
        assert(crate::macros::args::segments_from(whole, 0) =~= crate::macros::args::segments_from(
            a,
            0,
        ) + crate::macros::args::segments_from(b, 0));
    }
}

proof fn first_comma_stops(tokens: Seq<Token>, at: int, bad: int)
    requires
        0 <= at <= bad < tokens.len(),
        is_comma(tokens[bad]),
    ensures
        crate::macros::args::comma_from(tokens, at) <= bad,
    decreases bad - at,
{
    if !crate::macros::token::is_punct(tokens[at], ',') {
        first_comma_stops(tokens, at + 1, bad);
    }
}

proof fn before_first_comma(tokens: Seq<Token>, at: int)
    requires
        0 <= at <= tokens.len(),
    ensures
        forall|i: int|
            at <= i < crate::macros::args::comma_from(tokens, at) && i < tokens.len()
                ==> !is_comma(#[trigger] tokens[i]),
        crate::macros::args::comma_from(tokens, at) < tokens.len() ==> is_comma(
            tokens[crate::macros::args::comma_from(tokens, at)],
        ),
    decreases tokens.len() - at,
{
    if at < tokens.len() && !crate::macros::token::is_punct(tokens[at], ',') {
        before_first_comma(tokens, at + 1);
    }
}

/// Whether tokens are a path: identifiers and colons, and an identifier at the end.
pub open spec fn is_path(tokens: Seq<Token>) -> bool {
    &&& tokens.len() > 0
    &&& tokens[tokens.len() - 1].kind is Ident
    &&& forall|i: int|
        0 <= i < tokens.len() ==> (#[trigger] tokens[i]).kind is Ident || (
        tokens[i].kind matches TokenKind::Punct(c, _) && c == ':')
}

/// A path is read as its last identifier and what stands before that, and nothing else is read as a
/// path.
pub proof fn paths_end_in_their_item(tokens: Seq<Token>)
    ensures
        is_path(tokens) ==> crate::macros::args::path_in(tokens) == Ok::<PathView, Seq<char>>(
            (tokens.take(tokens.len() - 1), tokens[tokens.len() - 1]),
        ),
        !is_path(tokens) ==> crate::macros::args::path_in(tokens) is Err,
{
    if is_path(tokens) {
        assert(tokens.drop_last() =~= tokens.take(tokens.len() - 1));
        assert forall|i: int| 0 <= i < tokens.len() implies crate::macros::args::in_path(
            #[trigger] tokens[i],
        ) by {
            assert(tokens[i].kind is Ident || (tokens[i].kind matches TokenKind::Punct(c, _) && c
                == ':'));
        }
    } else if tokens.len() > 0 && tokens.last().kind is Ident {
        let i = choose|i: int|
            0 <= i < tokens.len() && !((#[trigger] tokens[i]).kind is Ident || (
            tokens[i].kind matches TokenKind::Punct(c, _) && c == ':'));
        assert(!crate::macros::args::in_path(tokens[i]));
    }
}

/// Whether no two pieces of a list read alike.
pub open spec fn all_differ(segments: Seq<Seq<Token>>) -> bool {
    forall|i: int, j: int|
        0 <= i < j < segments.len() ==> crate::macros::args::item_text(#[trigger] segments[i])
            != crate::macros::args::item_text(#[trigger] segments[j])
}

/// A list is accepted if and only if each of its pieces is a path and no two of them read alike. The
/// items are then those of the pieces, in order.
pub proof fn lists_of_different_paths_are_read(segments: Seq<Seq<Token>>, list: Seq<char>)
    ensures
        crate::macros::args::paths_in(segments, list) is Ok <==> all_differ(segments) && forall|
            i: int,
        |
            0 <= i < segments.len() ==> is_path(#[trigger] segments[i]),
        crate::macros::args::paths_in(segments, list) matches Ok(paths) ==> paths.len()
            == segments.len() && forall|i: int|
            0 <= i < segments.len() ==> (#[trigger] paths[i]) == (
                segments[i].take(segments[i].len() - 1),
                segments[i][segments[i].len() - 1],
            ),
    decreases segments.len(),
{
    if segments.len() > 0 {
        let fewer = segments.drop_last();
        let last = segments.last();
        lists_of_different_paths_are_read(fewer, list);
        paths_end_in_their_item(last);
        let is_listed = crate::macros::args::listed(fewer, crate::macros::args::item_text(last));
        assert(segments =~= fewer.push(last));
        if all_differ(segments) {
            assert forall|i: int, j: int|
                0 <= i < j < fewer.len() implies crate::macros::args::item_text(
                #[trigger] fewer[i],
            ) != crate::macros::args::item_text(#[trigger] fewer[j]) by {
                assert(crate::macros::args::item_text(segments[i])
                    != crate::macros::args::item_text(segments[j]));
            }
            if is_listed {
                let j = choose|j: int|
                    0 <= j < fewer.len() && crate::macros::args::item_text(#[trigger] fewer[j])
                        == crate::macros::args::item_text(last);
                assert(segments[j] == fewer[j]);
                assert(segments[segments.len() - 1] == last);
                assert(false);
            }
        }
        if all_differ(fewer) && !is_listed {
            assert forall|i: int, j: int|
                0 <= i < j < segments.len() implies crate::macros::args::item_text(
                #[trigger] segments[i],
            ) != crate::macros::args::item_text(#[trigger] segments[j]) by {
                assert(segments[i] == fewer[i]);
                if j < fewer.len() {
                    assert(segments[j] == fewer[j]);
                } else {
                    assert(segments[j] == last);
                }
            }
        }
        if forall|i: int| 0 <= i < segments.len() ==> is_path(#[trigger] segments[i]) {
            assert(is_path(segments[segments.len() - 1]));
            assert forall|i: int| 0 <= i < fewer.len() implies is_path(#[trigger] fewer[i]) by {
                assert(is_path(segments[i]));
            }
        }
        if is_path(last) && forall|i: int| 0 <= i < fewer.len() ==> is_path(#[trigger] fewer[i]) {
            assert forall|i: int| 0 <= i < segments.len() implies is_path(#[trigger] segments[i]) by {
                if i < fewer.len() {
                    assert(is_path(fewer[i]));
                }
            }
        }
        if let Ok(paths) = crate::macros::args::paths_in(segments, list) {
            let before = crate::macros::args::paths_in(fewer, list)->Ok_0;
            assert forall|i: int| 0 <= i < segments.len() implies (#[trigger] paths[i]) == (
                segments[i].take(segments[i].len() - 1),
                segments[i][segments[i].len() - 1],
            ) by {
                if i < fewer.len() {
                    assert(paths[i] == before[i]);
                    assert(segments[i] == fewer[i]);
                }
            }
        }
    }
}

/// How an item of a list reads is made up token by token, without the white space.
pub proof fn items_read_token_by_token(a: Seq<char>, b: Seq<char>)
    ensures
        crate::macros::args::spaceless(a) == a.filter(
            |c: char| !crate::macros::args::is_space(c),
        ),
        crate::macros::args::spaceless(a + b) == crate::macros::args::spaceless(a)
            + crate::macros::args::spaceless(b),
    decreases a.len() + b.len(),
{
    spaces_are_left_out(a);
    spaces_are_left_out(b);
    spaces_are_left_out(a + b);
    Seq::filter_distributes_over_add(a, b, |c: char| !crate::macros::args::is_space(c));
}

proof fn spaces_are_left_out(a: Seq<char>)
    ensures
        crate::macros::args::spaceless(a) == a.filter(
            |c: char| !crate::macros::args::is_space(c),
        ),
    decreases a.len(),
{
    reveal(Seq::filter);
    if a.len() > 0 {
        spaces_are_left_out(a.drop_last());
    }
}

/// The text of tokens is that of each, in order; the text of a group is that of what is in it
/// between its delimiters.
pub proof fn texts_of_tokens_follow_each_other(a: Seq<Token>, b: Seq<Token>, token: Token)
    ensures
        crate::macros::args::tokens_text(Seq::empty()).len() == 0,
        crate::macros::args::tokens_text(a + b) == crate::macros::args::tokens_text(a)
            + crate::macros::args::tokens_text(b),
        crate::macros::args::tokens_text(seq![token]) == (match token.kind {
            TokenKind::Ident(text) => text@,
            TokenKind::Literal(text) => text@,
            TokenKind::Punct(c, _) => seq![c],
            TokenKind::Group(Delimiter::Parenthesis, inner) => seq!['(']
                + crate::macros::args::tokens_text(inner@) + seq![')'],
            TokenKind::Group(Delimiter::Brace, inner) => seq!['{']
                + crate::macros::args::tokens_text(inner@) + seq!['}'],
            TokenKind::Group(Delimiter::Bracket, inner) => seq!['[']
                + crate::macros::args::tokens_text(inner@) + seq![']'],
            TokenKind::Group(Delimiter::Invisible, inner) => crate::macros::args::tokens_text(
                inner@,
            ),
        }),
    decreases b.len(),
{
    assert(seq![token].drop_last() =~= Seq::empty());
    assert(crate::macros::args::tokens_text(Seq::<Token>::empty()).len() == 0);
    let one = crate::macros::args::tokens_text(seq![token]);
    match token.kind {
        TokenKind::Ident(text) => {
            assert(one =~= text@);
        },
        TokenKind::Literal(text) => {
            assert(one =~= text@);
        },
        TokenKind::Punct(c, _) => {
            assert(one =~= seq![c]);
        },
        TokenKind::Group(delimiter, inner) => {
            let within = crate::macros::args::tokens_text(inner@);
            assert(one =~= crate::macros::args::opening(delimiter) + within
                + crate::macros::args::closing(delimiter));
            assert(delimiter == Delimiter::Invisible ==> one =~= within);
        },
    }
    if b.len() == 0 {
        assert(a + b =~= a);
        assert(crate::macros::args::tokens_text(a) + crate::macros::args::tokens_text(b)
            =~= crate::macros::args::tokens_text(a));
    } else {
        texts_of_tokens_follow_each_other(a, b.drop_last(), token);
        assert((a + b).drop_last() =~= a + b.drop_last());
        assert((a + b).last() == b.last());
        assert(crate::macros::args::tokens_text(a + b) =~= crate::macros::args::tokens_text(a)
            + crate::macros::args::tokens_text(b));
    }
}

proof fn arguments_are_the_same_later(tokens: Seq<Token>, from: int, at: int, args: DbArgsView)
    requires
        0 <= from <= at <= tokens.len(),
    ensures
        crate::macros::args::args_from(tokens, at, args) == crate::macros::args::args_from(
            tokens.skip(from),
            at - from,
            args,
        ),
    decreases tokens.len() - at,
{
    let rest = tokens.skip(from);
    if at < tokens.len() {
        assert(rest[at - from] == tokens[at]);
        if crate::macros::token::is_punct(tokens[at], ',') {
            arguments_are_the_same_later(tokens, from, at + 1, args);
        } else if at + 1 < tokens.len() {
            assert(rest[at + 1 - from] == tokens[at + 1]);
            let key = crate::macros::token::ident_text(tokens[at]);
            if let Ok(items) = crate::macros::args::list_in(
                crate::macros::token::inside(tokens[at + 1]),
                key,
            ) {
                if let Ok(more) = crate::macros::args::with_argument(args, key, items) {
                    arguments_are_the_same_later(tokens, from, at + 2, more);
                }
            }
        }
    }
}

/// Arguments are read one after the other: what stands behind some that were accepted is read with
/// them taken in.
pub proof fn arguments_are_read_in_order(a: Seq<Token>, b: Seq<Token>, args: DbArgsView)
    ensures
        crate::macros::args::args_from(a, 0, args) matches Ok(more)
            ==> crate::macros::args::args_from(a + b, 0, args) == crate::macros::args::args_from(
            b,
            0,
            more,
        ),
    decreases a.len(),
{
    let whole = a + b;
    if a.len() == 0 {
        assert(whole =~= b);
    } else if crate::macros::args::args_from(a, 0, args) is Ok {
        assert(whole[0] == a[0]);
        if crate::macros::token::is_punct(a[0], ',') {
            arguments_are_the_same_later(a, 1, 1, args);
            arguments_are_the_same_later(whole, 1, 1, args);
            assert(whole.skip(1) =~= a.skip(1) + b);
            arguments_are_read_in_order(a.skip(1), b, args);
        } else {
            assert(whole[1] == a[1]);
            let key = crate::macros::token::ident_text(a[0]);
            let items = crate::macros::args::list_in(
                crate::macros::token::inside(a[1]),
                key,
            )->Ok_0;
            let more = crate::macros::args::with_argument(args, key, items)->Ok_0;
            arguments_are_the_same_later(a, 2, 2, more);
            arguments_are_the_same_later(whole, 2, 2, more);
            assert(whole.skip(2) =~= a.skip(2) + b);
            arguments_are_read_in_order(a.skip(2), b, more);
        }
    }
}

/// The items of an argument go where its word says: those of `inputs` and `input` behind the inputs,
/// those of `interned` behind the interned structs, those of `tracked` behind the functions, and the
/// one of `db_trait` is the name of the trait. Commas do not count, and any other word is refused.
pub proof fn items_go_where_their_word_says(
    word: Token,
    group: Token,
    comma: Token,
    items: Seq<PathView>,
    args: DbArgsView,
)
    requires
        is_comma(comma),
        word.kind is Ident,
        group.kind matches TokenKind::Group(d, _) && d == Delimiter::Parenthesis,
        crate::macros::args::list_in(
            crate::macros::token::inside(group),
            crate::macros::token::ident_text(word),
        ) == Ok::<Seq<PathView>, Seq<char>>(items),
    ensures
        crate::macros::args::args_from(seq![comma], 0, args) == Ok::<DbArgsView, Seq<char>>(args),
        ({
            let text = crate::macros::token::ident_text(word);
            let r = crate::macros::args::args_from(seq![word, group], 0, args);
            &&& text == "inputs"@ || text == "input"@ ==> (r matches Ok(more) && more.inputs
                == args.inputs + items && more.interned == args.interned && more.queries
                == args.queries && more.db_trait == args.db_trait)
            &&& text == "interned"@ ==> (r matches Ok(more) && more.inputs == args.inputs
                && more.interned == args.interned + items && more.queries == args.queries
                && more.db_trait == args.db_trait)
            &&& text == "tracked"@ ==> (r matches Ok(more) && more.inputs == args.inputs
                && more.interned == args.interned && more.queries == args.queries + items
                && more.db_trait == args.db_trait)
            &&& text == "db_trait"@ ==> (r is Ok <==> items.len() == 1 && items[0].0.len() == 0
                && args.db_trait is None) && (r matches Ok(more) ==> more.inputs == args.inputs
                && more.interned == args.interned && more.queries == args.queries && more.db_trait
                == Some(items[0].1))
            &&& text != "inputs"@ && text != "input"@ && text != "interned"@ && text != "tracked"@
                && text != "db_trait"@ ==> r is Err
        }),
{
    reveal_with_fuel(crate::macros::args::args_from, 3);
    reveal_strlit("inputs");
    reveal_strlit("input");
    reveal_strlit("interned");
    reveal_strlit("tracked");
    reveal_strlit("db_trait");
    let tokens = seq![word, group];
    assert(tokens[0] == word && tokens[1] == group);
    assert("inputs"@[0] == 'i' && "input"@[0] == 'i' && "interned"@[2] == 't' && "inputs"@[2] == 'p'
        && "input"@[2] == 'p' && "tracked"@[0] == 't' && "db_trait"@[0] == 'd');
}

/// Arguments of which one is refused are refused.
pub proof fn refused_arguments_stay_refused(a: Seq<Token>, args: DbArgsView)
    requires
        a.len() >= 2,
        a[0].kind is Ident,
        a[1].kind is Group,
        crate::macros::args::args_from(a.take(2), 0, args) is Err,
    ensures
        crate::macros::args::args_from(a, 0, args) is Err,
{
    let two = a.take(2);
    assert(two[0] == a[0] && two[1] == a[1]);
    reveal_with_fuel(crate::macros::args::args_from, 2);
}

} // verus!
