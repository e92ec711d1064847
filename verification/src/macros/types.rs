//! Looking into types and generics.
use crate::macros::token::{copy_tokens, Token};
use vstd::prelude::*;

verus! {

/// How many angle brackets are open after the first `n` tokens. A closing bracket without an
/// opening one does not count.
pub open spec fn angle_depth(tokens: Seq<Token>, n: int) -> nat
    decreases n,
{
    if n <= 0 || n > tokens.len() {
        0
    } else {
        let before = angle_depth(tokens, n - 1);
        if crate::macros::token::is_punct(tokens[n - 1], '<') {
            before + 1
        } else if crate::macros::token::is_punct(tokens[n - 1], '>') && before > 0 {
            (before - 1) as nat
        } else {
            before
        }
    }
}

/// Whether a comma outside of all angle brackets stands at `i`.
pub open spec fn separates(tokens: Seq<Token>, i: int) -> bool {
    &&& 0 <= i < tokens.len()
    &&& crate::macros::token::is_punct(tokens[i], ',')
    &&& angle_depth(tokens, i) == 0
}

/// Where the first of several arguments ends: at the first comma outside of all angle brackets, or
/// at the end.
pub open spec fn is_first_arg_end(tokens: Seq<Token>, end: int) -> bool {
    &&& 0 <= end <= tokens.len()
    &&& end < tokens.len() ==> separates(tokens, end)
    &&& forall|i: int| 0 <= i < end ==> !#[trigger] separates(tokens, i)
}

proof fn angle_depth_bounded(tokens: Seq<Token>, n: int)
    requires
        0 <= n <= tokens.len(),
    ensures
        angle_depth(tokens, n) <= n,
    decreases n,
{
    if n > 0 {
        angle_depth_bounded(tokens, n - 1);
    }
}

fn find_first_arg_end(tokens: &[Token]) -> (r: usize)
    ensures
        is_first_arg_end(tokens@, r as int),
{
    let mut depth: usize = 0;
    let mut i: usize = 0;
    while i < tokens.len()
        invariant
            i <= tokens@.len(),
            depth == angle_depth(tokens@, i as int),
            forall|j: int| 0 <= j < i ==> !#[trigger] separates(tokens@, j),
        decreases tokens@.len() - i,
    {
        proof {
            angle_depth_bounded(tokens@, i as int);
        }
        if tokens[i].is_punct('<') {
            depth = depth + 1;
        } else if tokens[i].is_punct('>') {
            if depth > 0 {
                depth = depth - 1;
            }
        } else if tokens[i].is_punct(',') && depth == 0 {
            return i;
        }
        i = i + 1;
    }
    i
}

/// What the generics of a tracked function come to.
pub ghost enum DbGeneric {
    /// There are none.
    Missing,
    /// They are not between angle brackets.
    NotBracketed,
    /// There is more than one parameter.
    TooMany,
    /// A lifetime stands where the parameter should.
    Lifetime,
    /// They are not a parameter with optional bounds.
    NotAParam,
    /// The parameter, and its bounds.
    Param(Token, Seq<Token>),
}

/// What the generics of a tracked function come to: `<DB>` or `<DB: ...>`.
pub open spec fn db_generic_in(generics: Seq<Token>) -> DbGeneric {
    let inner = generics.subrange(1, generics.len() - 1);
    if generics.len() == 0 {
        DbGeneric::Missing
    } else if !(crate::macros::token::is_punct(generics[0], '<') && crate::macros::token::is_punct(
        generics.last(),
        '>',
    )) {
        DbGeneric::NotBracketed
    } else if exists|i: int| #[trigger] separates(inner, i) {
        DbGeneric::TooMany
    } else if inner.len() == 0 {
        DbGeneric::NotAParam
    } else if crate::macros::token::is_punct(inner[0], '\'') {
        DbGeneric::Lifetime
    } else if !crate::macros::token::is_ident(inner[0]) {
        DbGeneric::NotAParam
    } else if inner.len() == 1 {
        DbGeneric::Param(inner[0], Seq::empty())
    } else if !crate::macros::token::is_punct(inner[1], ':') {
        DbGeneric::NotAParam
    } else {
        DbGeneric::Param(inner[0], inner.skip(2))
    }
}

/// Whether reading the generics of a tracked function came out as it must.
pub open spec fn db_generic_read(r: Result<(Token, Vec<Token>), String>, view: DbGeneric) -> bool {
    match view {
        DbGeneric::Missing => r matches Err(e) && e@
            == "picante: #[picante::tracked] requires a generic DB param, e.g. `fn foo<DB: ...>(db: &DB, ...)`"@,
        DbGeneric::NotBracketed => r matches Err(e) && e@ == "picante: failed to parse generics"@,
        DbGeneric::TooMany => r matches Err(e) && e@
            == "picante: #[picante::tracked] currently supports exactly one type parameter (DB)"@,
        DbGeneric::Lifetime => r matches Err(e) && e@
            == "picante: lifetime generic params are not supported (use a type param `DB`)"@,
        DbGeneric::NotAParam => r matches Err(e) && e@ == "picante: expected `<DB: ...>`"@,
        DbGeneric::Param(name, bounds) => r matches Ok(out) && out.0 == name && out.1@ == bounds,
    }
}

/// Read the generics of a tracked function: the name of the database parameter and its bounds.
pub fn parse_db_generic(generics: &[Token]) -> (r: Result<(Token, Vec<Token>), String>)
    ensures
        db_generic_read(r, db_generic_in(generics@)),
{
    let len: usize = generics.len();
    if len == 0 {
        return Err(
            "picante: #[picante::tracked] requires a generic DB param, e.g. `fn foo<DB: ...>(db: &DB, ...)`".to_owned(),
        );
    }
    if !generics[0].is_punct('<') || !generics[len - 1].is_punct('>') {
        return Err("picante: failed to parse generics".to_owned());
    }
    assert(len >= 2);
    let inner: Vec<Token> = copy_tokens(generics, 1, len - 1);
    let end: usize = find_first_arg_end(inner.as_slice());
    if end < inner.len() {
        assert(separates(inner@, end as int));
        return Err(
            "picante: #[picante::tracked] currently supports exactly one type parameter (DB)".to_owned(),
        );
    }
    assert forall|i: int| !#[trigger] separates(inner@, i) by {}
    if inner.len() == 0 {
        return Err("picante: expected `<DB: ...>`".to_owned());
    }
    if inner[0].is_punct('\'') {
        return Err(
            "picante: lifetime generic params are not supported (use a type param `DB`)".to_owned(),
        );
    }
    if !inner[0].is_ident() {
        return Err("picante: expected `<DB: ...>`".to_owned());
    }
    if inner.len() == 1 {
        return Ok((inner[0].clone(), Vec::new()));
    }
    if !inner[1].is_punct(':') {
        return Err("picante: expected `<DB: ...>`".to_owned());
    }
    let bounds: Vec<Token> = copy_tokens(inner.as_slice(), 2, inner.len());
    assert(bounds@ =~= inner@.skip(2));
    Ok((inner[0].clone(), bounds))
}

/// The type behind a shared reference, if a type is one to a single name: `&T` or `&'a T`.
pub open spec fn referent(ty: Seq<Token>) -> Option<Token> {
    let at = if ty.len() > 1 && crate::macros::token::is_punct(ty[1], '\'') {
        3int
    } else {
        1int
    };
    if ty.len() == at + 1 && crate::macros::token::is_punct(ty[0], '&')
        && crate::macros::token::is_ident(ty[at]) && !crate::macros::token::is_word(
        ty[at],
        "mut"@,
    ) {
        Some(ty[at])
    } else {
        None
    }
}

/// The type behind a shared reference.
pub fn strip_ref_inner_ident(ty: &[Token]) -> (r: Option<Token>)
    ensures
        r == referent(ty@),
{
    if ty.len() == 0 || !ty[0].is_punct('&') {
        return None;
    }
    let at: usize = if ty.len() > 1 && ty[1].is_punct('\'') {
        3
    } else {
        1
    };
    if ty.len() != at + 1 || !ty[at].is_ident() || ty[at].is_word("mut") {
        return None;
    }
    Some(ty[at].clone())
}

/// What is seen of a type after some of its tokens: those outside of its outermost angle brackets,
/// those inside, and how many brackets are open.
pub ghost struct OuterType {
    /// Outside.
    pub head: Seq<Token>,
    /// Inside.
    pub args: Seq<Token>,
    /// How many brackets are open.
    pub depth: nat,
}

/// What is seen of a type after its first `n` tokens.
pub open spec fn outer_type(ty: Seq<Token>, n: int) -> OuterType
    decreases n,
{
    if n <= 0 || n > ty.len() {
        OuterType { head: Seq::empty(), args: Seq::empty(), depth: 0 }
    } else {
        let before = outer_type(ty, n - 1);
        let token = ty[n - 1];
        let opens = crate::macros::token::is_punct(token, '<');
        let closes = crate::macros::token::is_punct(token, '>');
        let depth = angle_depth(ty, n);
        if opens && before.depth == 0 || closes && before.depth == 1 {
            OuterType { depth, ..before }
        } else if before.depth > 0 {
            OuterType { args: before.args.push(token), depth, ..before }
        } else {
            OuterType { head: before.head.push(token), depth, ..before }
        }
    }
}

fn split_outer_type(ty: &[Token]) -> (r: (Vec<Token>, Vec<Token>))
    ensures
        r.0@ == outer_type(ty@, ty@.len() as int).head,
        r.1@ == outer_type(ty@, ty@.len() as int).args,
{
    let mut head: Vec<Token> = Vec::new();
    let mut args: Vec<Token> = Vec::new();
    let mut depth: usize = 0;
    let mut i: usize = 0;
    while i < ty.len()
        invariant
            i <= ty@.len(),
            head@ == outer_type(ty@, i as int).head,
            args@ == outer_type(ty@, i as int).args,
            depth == outer_type(ty@, i as int).depth,
            depth == angle_depth(ty@, i as int),
        decreases ty@.len() - i,
    {
        proof {
            angle_depth_bounded(ty@, i as int);
        }
        let opens: bool = ty[i].is_punct('<');
        let closes: bool = ty[i].is_punct('>');
        if !(opens && depth == 0 || closes && depth == 1) {
            if depth > 0 {
                args.push(ty[i].clone());
            } else {
                head.push(ty[i].clone());
            }
        }
        if opens {
            depth = depth + 1;
        } else if closes && depth > 0 {
            depth = depth - 1;
        }
        i = i + 1;
    }
    (head, args)
}

/// Whether the last identifier among the tokens is a certain word.
pub open spec fn last_word_is(tokens: Seq<Token>, word: Seq<char>) -> bool
    decreases tokens.len(),
{
    if tokens.len() == 0 {
        false
    } else if crate::macros::token::is_ident(tokens.last()) {
        crate::macros::token::is_word(tokens.last(), word)
    } else {
        last_word_is(tokens.drop_last(), word)
    }
}

fn check_last_word(tokens: &[Token], word: &str) -> (r: bool)
    ensures
        r == last_word_is(tokens@, word@),
{
    let mut i: usize = tokens.len();
    assert(tokens@.take(i as int) =~= tokens@);
    while i > 0
        invariant
            i <= tokens@.len(),
            last_word_is(tokens@, word@) == last_word_is(tokens@.take(i as int), word@),
        decreases i,
    {
        assert(tokens@.take(i as int).last() == tokens@[i - 1]);
        assert(tokens@.take(i as int).drop_last() =~= tokens@.take(i - 1));
        i = i - 1;
        if tokens[i].is_ident() {
            return tokens[i].is_word(word);
        }
    }
    false
}

/// Whether a return type is a `PicanteResult` with something between the angle brackets.
pub open spec fn is_wrapped(ret: Seq<Token>) -> bool {
    let outer = outer_type(ret, ret.len() as int);
    outer.args.len() > 0 && last_word_is(outer.head, "PicanteResult"@)
}

/// Whether the value type was taken from a return type as it must be.
pub open spec fn ok_type_taken(ret: Seq<Token>, r: Result<(Vec<Token>, bool), String>) -> bool {
    if is_wrapped(ret) {
        let args = outer_type(ret, ret.len() as int).args;
        exists|end: int|
            {
                &&& #[trigger] is_first_arg_end(args, end)
                &&& if end == 0 {
                    r matches Err(e) && e@ == "picante: expected generic argument"@
                } else {
                    r matches Ok(out) && out.0@ == args.take(end) && out.1
                }
            }
    } else {
        r matches Ok(out) && out.0@ == ret && !out.1
    }
}

/// The type of the value that a function returns, and whether it returns a `PicanteResult` of it.
pub fn take_return_ok_type(ret: &[Token]) -> (r: Result<(Vec<Token>, bool), String>)
    ensures
        ok_type_taken(ret@, r),
{
    let (head, args) = split_outer_type(ret);
    if args.len() == 0 || !check_last_word(head.as_slice(), "PicanteResult") {
        let plain: Vec<Token> = copy_tokens(ret, 0, ret.len());
        assert(plain@ =~= ret@);
        return Ok((plain, false));
    }
    let end: usize = find_first_arg_end(args.as_slice());
    if end == 0 {
        return Err("picante: expected generic argument".to_owned());
    }
    let ok: Vec<Token> = copy_tokens(args.as_slice(), 0, end);
    assert(ok@ =~= args@.take(end as int));
    Ok((ok, true))
}

} // verus!
