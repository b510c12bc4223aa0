//! The grammar of query files.
//!
//! A file holds type annotations and, after them, queries; white space
//! between tokens is free.
//!
//! ```text
//! module      := { annotation } { query }
//! annotation  := ident "(" field { "," field } [","] ")"
//! field       := ident ":" sql_type [ "?" ]
//! sql_type    := ident { ident | "[]" }
//! query       := ident "(" descriptor "," descriptor ")" ["!"] [":"] sql ";"
//!              | ident "(" [ "params" "=>" list ] [","] [ "row" "=>" list ] ")" ["!"] [":"] sql ";"
//! descriptor  := list | ident
//! list        := "[" { ident ["?"] [","] } "]"
//! ```
//!
//! An identifier starts with an ASCII letter or `_` and goes on with ASCII
//! letters, digits and `_`. The SQL text of a query begins at the first
//! character that is no white space and ends before the first `;`. In a query
//! of the first form, every `:name` that no `:` precedes is a bind parameter:
//! it is replaced by `$N`, where `N` is the number of the name in the order
//! of first mention. An annotation may describe parameters as well as rows.

use crate::names::{index_of_name, key_of, lemma_views_push, position_by_name, views};
use crate::text::{decimal, decimal_string};
use crate::parser::{
    AnnotationField, AnnotationFieldView, DescriptorView, NullableIdent, NullableNameView, Parsed,
    ParseError, ParseErrorKind, ParsedModule, ParsedModuleView, ParsedName, ParsedQuery,
    ParsedQueryView, Position, QueryDataStructure, TypeAnnotation, TypeAnnotationView,
};
use crate::suite::is_white_space;
use vstd::prelude::*;

verus! {

/// A character that an identifier may begin with.
pub open spec fn is_ident_start(c: char) -> bool {
    ('a' <= c && c <= 'z') || ('A' <= c && c <= 'Z') || c == '_'
}

/// A character that an identifier may go on with.
pub open spec fn is_ident_char(c: char) -> bool {
    is_ident_start(c) || ('0' <= c && c <= '9')
}

/// The first place from `i` on that holds no white space, or the end.
pub open spec fn skip_ws(text: Seq<char>, i: int) -> int
    decreases text.len() - i,
{
    if 0 <= i < text.len() && is_white_space(text[i]) {
        skip_ws(text, i + 1)
    } else {
        i
    }
}

/// The first place from `i` on that holds no character of an identifier, or
/// the end.
pub open spec fn ident_end(text: Seq<char>, i: int) -> int
    decreases text.len() - i,
{
    if 0 <= i < text.len() && is_ident_char(text[i]) {
        ident_end(text, i + 1)
    } else {
        i
    }
}

/// The number of line breaks before place `i`.
pub open spec fn line_breaks(text: Seq<char>, i: int) -> nat
    decreases i,
{
    if i <= 0 || i > text.len() {
        0
    } else if text[i - 1] == '\n' {
        line_breaks(text, i - 1) + 1
    } else {
        line_breaks(text, i - 1)
    }
}

/// The place at which the line of place `i` begins.
pub open spec fn line_start(text: Seq<char>, i: int) -> int
    decreases i,
{
    if i <= 0 || i > text.len() {
        0
    } else if text[i - 1] == '\n' {
        i
    } else {
        line_start(text, i - 1)
    }
}

/// Skipping white space goes forward, stays in the text, and ends on a
/// character that is none.
pub proof fn lemma_skip_ws(text: Seq<char>, i: int)
    requires
        0 <= i <= text.len(),
    ensures
        i <= skip_ws(text, i) <= text.len(),
        skip_ws(text, i) < text.len() ==> !is_white_space(text[skip_ws(text, i)]),
    decreases text.len() - i,
{
    if i < text.len() && is_white_space(text[i]) {
        lemma_skip_ws(text, i + 1);
    }
}

/// Skipping an identifier goes forward and stays in the text; it moves
/// where an identifier character stands.
pub proof fn lemma_ident_end(text: Seq<char>, i: int)
    requires
        0 <= i <= text.len(),
    ensures
        i <= ident_end(text, i) <= text.len(),
        i < text.len() && is_ident_char(text[i]) ==> i < ident_end(text, i),
    decreases text.len() - i,
{
    if i < text.len() && is_ident_char(text[i]) {
        lemma_ident_end(text, i + 1);
    }
}

/// Decides `is_ident_start`.
fn ident_start(c: char) -> (r: bool)
    ensures
        r == is_ident_start(c),
{
    ('a' <= c && c <= 'z') || ('A' <= c && c <= 'Z') || c == '_'
}

/// Decides `is_ident_char`.
fn ident_char(c: char) -> (r: bool)
    ensures
        r == is_ident_char(c),
{
    ident_start(c) || ('0' <= c && c <= '9')
}

/// The characters of a text.
fn chars_of(text: &str) -> (r: Vec<char>)
    ensures
        r@ == text@,
{
    let mut r: Vec<char> = Vec::new();
    for c in it: text.chars()
        invariant
            r@ == it.seq().take(it.index() as int),
            it.seq() == text@,
    {
        r.push(c);
    }
    r
}

/// Skips white space (see [`skip_ws`]).
fn skip_white_space(chars: &Vec<char>, i: usize) -> (r: usize)
    requires
        i <= chars.len(),
    ensures
        r == skip_ws(chars@, i as int),
        i <= r <= chars.len(),
{
    let mut at = i;
    while at < chars.len() && crate::suite::white_space(chars[at])
        invariant
            i <= at <= chars.len(),
            skip_ws(chars@, i as int) == skip_ws(chars@, at as int),
        decreases chars.len() - at,
    {
        at += 1;
    }
    at
}

/// Skips an identifier (see [`ident_end`]).
fn skip_ident(chars: &Vec<char>, i: usize) -> (r: usize)
    requires
        i <= chars.len(),
    ensures
        r == ident_end(chars@, i as int),
        i <= r <= chars.len(),
{
    let mut at = i;
    while at < chars.len() && ident_char(chars[at])
        invariant
            i <= at <= chars.len(),
            ident_end(chars@, i as int) == ident_end(chars@, at as int),
        decreases chars.len() - at,
    {
        at += 1;
    }
    at
}

/// The line and the column of place `i`, both counted from one.
pub open spec fn position_at(text: Seq<char>, i: int) -> Position {
    Position {
        line: (line_breaks(text, i) + 1) as usize,
        col: (i - line_start(text, i) + 1) as usize,
    }
}

/// The failure of the given kind at place `i`.
pub open spec fn error_at(text: Seq<char>, kind: ParseErrorKind, i: int) -> ParseError {
    ParseError { kind, pos: position_at(text, i) }
}

/// The identifier that begins at place `i`, and the place behind it.
pub open spec fn ident_at(text: Seq<char>, i: int) -> Option<(ParsedName, int)> {
    if 0 <= i < text.len() && is_ident_start(text[i]) {
        Some(
            (
                ParsedName {
                    pos: position_at(text, i),
                    value: text.subrange(i, ident_end(text, i)),
                },
                ident_end(text, i),
            ),
        )
    } else {
        None
    }
}

/// Whether place `i` holds the character `c`.
pub open spec fn holds(text: Seq<char>, i: int, c: char) -> bool {
    0 <= i < text.len() && text[i] == c
}

/// The names of a list from place `i` on, which is behind the opening
/// bracket or behind one of the names, added to `done`; and the place behind
/// the closing bracket. A name may be followed by `?`, which marks it, and by
/// a comma.
pub open spec fn name_list(text: Seq<char>, i: int, done: Seq<NullableNameView>) -> Result<
    (Seq<NullableNameView>, int),
    ParseError,
>
    decreases text.len() - i,
    when 0 <= i <= text.len()
{
    let j = skip_ws(text, i);
    if holds(text, j, ']') {
        Ok((done, j + 1))
    } else {
        match ident_at(text, j) {
            None => Err(error_at(text, ParseErrorKind::UnexpectedToken, j)),
            Some((name, e)) => {
                let k = skip_ws(text, e);
                let marked = holds(text, k, '?');
                let m = if marked {
                    skip_ws(text, k + 1)
                } else {
                    k
                };
                let next = if holds(text, m, ',') {
                    m + 1
                } else {
                    m
                };
                proof {
                    lemma_skip_ws(text, i);
                    lemma_ident_end(text, j);
                    lemma_skip_ws(text, e);
                    if marked {
                        lemma_skip_ws(text, k + 1);
                    }
                }
                name_list(
                    text,
                    next,
                    done.push(
                        NullableNameView { pos: name.pos, name: name.value, is_nullable: marked },
                    ),
                )
            },
        }
    }
}

/// The names without their marks.
pub open spec fn unmarked(names: Seq<NullableNameView>) -> Seq<ParsedName> {
    names.map_values(|name: NullableNameView| ParsedName { pos: name.pos, value: name.name })
}

/// The position of a place (see [`position_at`]).
pub fn position(chars: &Vec<char>, i: usize) -> (r: Position)
    requires
        i <= chars.len(),
        chars.len() < usize::MAX,
    ensures
        r == position_at(chars@, i as int),
{
    let mut line: usize = 1;
    let mut start: usize = 0;
    let mut k: usize = 0;
    while k < i
        invariant
            k <= i <= chars.len(),
            chars.len() < usize::MAX,
            line == line_breaks(chars@, k as int) + 1,
            line <= k + 1,
            start == line_start(chars@, k as int),
            start <= k,
        decreases i - k,
    {
        if chars[k] == '\n' {
            line += 1;
            start = k + 1;
        }
        k += 1;
    }
    Position { line, col: i - start + 1 }
}

/// The failure of the given kind at a place.
fn fail<T>(chars: &Vec<char>, kind: ParseErrorKind, i: usize) -> (r: Result<T, ParseError>)
    requires
        i <= chars.len(),
        chars.len() < usize::MAX,
    ensures
        r == Err::<T, ParseError>(error_at(chars@, kind, i as int)),
{
    Err(ParseError { kind, pos: position(chars, i) })
}

/// Reads the identifier that begins at a place (see [`ident_at`]).
fn read_ident(text: &str, chars: &Vec<char>, i: usize) -> (r: Option<(Parsed<String>, usize)>)
    requires
        chars@ == text@,
        i <= chars.len(),
        chars.len() < usize::MAX,
    ensures
        match r {
            Some((name, end)) => ident_at(chars@, i as int) == Some((name@, end as int)) && i < end
                <= chars.len(),
            None => ident_at(chars@, i as int).is_none(),
        },
{
    if i < chars.len() && ident_start(chars[i]) {
        let end = skip_ident(chars, i);
        proof {
            lemma_ident_end(chars@, i as int);
        }
        Some((Parsed { pos: position(chars, i), value: text.substring_char(i, end).to_owned() }, end))
    } else {
        None
    }
}

/// Whether a place holds a character (see [`holds`]).
fn at(chars: &Vec<char>, i: usize, c: char) -> (r: bool)
    requires
        i <= chars.len(),
    ensures
        r == holds(chars@, i as int, c),
{
    i < chars.len() && chars[i] == c
}

/// Reads the names of a list (see [`name_list`]); `i` is behind the opening
/// bracket.
fn read_name_list(text: &str, chars: &Vec<char>, i: usize) -> (r: Result<
    (Vec<Parsed<NullableIdent>>, usize),
    ParseError,
>)
    requires
        chars@ == text@,
        i <= chars.len(),
        chars.len() < usize::MAX,
    ensures
        match r {
            Ok((names, end)) => name_list(chars@, i as int, Seq::empty()) == Ok::<_, ParseError>(
                (views(names@), end as int),
            ) && i < end <= chars.len(),
            Err(e) => name_list(chars@, i as int, Seq::empty()) == Err::<
                (Seq<NullableNameView>, int),
                _,
            >(e),
        },
{
    let mut names: Vec<Parsed<NullableIdent>> = Vec::new();
    let mut cur = i;
    assert(views(names@) =~= Seq::<NullableNameView>::empty());
    loop
        invariant
            chars@ == text@,
            i <= cur <= chars.len(),
            chars.len() < usize::MAX,
            name_list(chars@, i as int, Seq::empty()) == name_list(
                chars@,
                cur as int,
                views(names@),
            ),
        decreases chars.len() - cur,
    {
        let j = skip_white_space(chars, cur);
        if at(chars, j, ']') {
            return Ok((names, j + 1));
        }
        match read_ident(text, chars, j) {
            None => {
                return fail(chars, ParseErrorKind::UnexpectedToken, j);
            },
            Some((name, e)) => {
                let k = skip_white_space(chars, e);
                let marked = at(chars, k, '?');
                let m = if marked {
                    skip_white_space(chars, k + 1)
                } else {
                    k
                };
                let next = if at(chars, m, ',') {
                    m + 1
                } else {
                    m
                };
                let ghost before = names@;
                let item = Parsed {
                    pos: name.pos,
                    value: NullableIdent { name: name.value, is_nullable: marked },
                };
                names.push(item);
                proof {
                    lemma_views_push(before, item);
                }
                cur = next;
            },
        }
    }
}

/// The names without their marks (see [`unmarked`]).
fn into_unmarked(names: Vec<Parsed<NullableIdent>>) -> (r: Vec<Parsed<String>>)
    ensures
        views(r@) == unmarked(views(names@)),
{
    let ghost all = names@;
    let count = names.len();
    let mut rest = crate::names::reversed(names);
    let mut r: Vec<Parsed<String>> = Vec::new();
    let mut i: usize = 0;
    while i < count
        invariant
            i <= count,
            count == all.len(),
            rest.len() == count - i,
            forall|k: int| 0 <= k < count - i ==> rest[k] == all[count - 1 - k],
            r.len() == i,
            forall|k: int|
                0 <= k < i ==> r[k]@ == (ParsedName { pos: all[k].pos, value: all[k].value.name@ }),
        decreases count - i,
    {
        let item = rest.pop().unwrap();
        r.push(Parsed { pos: item.pos, value: item.value.name });
        i += 1;
    }
    assert(views(r@) =~= unmarked(views(all)));
    r
}

/// The description that begins at or behind place `i`: a list of names, or
/// the name of an annotation; and the place behind it.
pub open spec fn descriptor(text: Seq<char>, i: int) -> Result<(DescriptorView, int), ParseError> {
    let j = skip_ws(text, i);
    if holds(text, j, '[') {
        match name_list(text, j + 1, Seq::empty()) {
            Ok((names, end)) => Ok((DescriptorView::Implicit { idents: unmarked(names) }, end)),
            Err(e) => Err(e),
        }
    } else {
        match ident_at(text, j) {
            Some((name, end)) => Ok((DescriptorView::Named(name), end)),
            None => Err(error_at(text, ParseErrorKind::BadMetadataForm, j)),
        }
    }
}

/// Reads a description (see [`descriptor`]).
fn read_descriptor(text: &str, chars: &Vec<char>, i: usize) -> (r: Result<
    (QueryDataStructure, usize),
    ParseError,
>)
    requires
        chars@ == text@,
        i <= chars.len(),
        chars.len() < usize::MAX,
    ensures
        match r {
            Ok((structure, end)) => descriptor(chars@, i as int) == Ok::<_, ParseError>(
                (structure@, end as int),
            ) && i < end <= chars.len(),
            Err(e) => descriptor(chars@, i as int) == Err::<(DescriptorView, int), _>(e),
        },
{
    let j = skip_white_space(chars, i);
    if at(chars, j, '[') {
        match read_name_list(text, chars, j + 1) {
            Ok((names, end)) => Ok(
                (QueryDataStructure::Implicit { idents: into_unmarked(names) }, end),
            ),
            Err(e) => Err(e),
        }
    } else {
        match read_ident(text, chars, j) {
            Some((name, end)) => Ok((QueryDataStructure::Named(name), end)),
            None => fail(chars, ParseErrorKind::BadMetadataForm, j),
        }
    }
}

/// The place behind the last word of an SQL type of which the words up to
/// place `i` are read: further words are identifiers and `[]`.
pub open spec fn type_tail(text: Seq<char>, i: int) -> int
    decreases text.len() - i,
    when 0 <= i <= text.len()
{
    let j = skip_ws(text, i);
    proof {
        lemma_skip_ws(text, i);
        lemma_ident_end(text, j);
    }
    if j < text.len() && is_ident_start(text[j]) {
        type_tail(text, ident_end(text, j))
    } else if holds(text, j, '[') && holds(text, j + 1, ']') {
        type_tail(text, j + 2)
    } else {
        i
    }
}

/// The end of an SQL type lies at or behind the place from which it is
/// looked for, and in the text.
pub proof fn lemma_type_tail(text: Seq<char>, i: int)
    requires
        0 <= i <= text.len(),
    ensures
        i <= type_tail(text, i) <= text.len(),
    decreases text.len() - i,
{
    let j = skip_ws(text, i);
    lemma_skip_ws(text, i);
    lemma_ident_end(text, j);
    if j < text.len() && is_ident_start(text[j]) {
        lemma_type_tail(text, ident_end(text, j));
    } else if holds(text, j, '[') && holds(text, j + 1, ']') {
        lemma_type_tail(text, j + 2);
    }
}

/// Finds the end of an SQL type (see [`type_tail`]).
fn skip_type_tail(chars: &Vec<char>, i: usize) -> (r: usize)
    requires
        i <= chars.len(),
    ensures
        r == type_tail(chars@, i as int),
        i <= r <= chars.len(),
{
    let mut end = i;
    loop
        invariant
            i <= end <= chars.len(),
            type_tail(chars@, i as int) == type_tail(chars@, end as int),
        decreases chars.len() - end,
    {
        let j = skip_white_space(chars, end);
        proof {
            lemma_ident_end(chars@, j as int);
        }
        if j < chars.len() && ident_start(chars[j]) {
            end = skip_ident(chars, j);
        } else if at(chars, j, '[') && at(chars, j + 1, ']') {
            end = j + 2;
        } else {
            return end;
        }
    }
}

/// The fields of an annotation from place `i` on, which is behind the
/// opening parenthesis or behind a comma, added to `done`; and the place
/// behind the closing parenthesis.
pub open spec fn field_list(text: Seq<char>, i: int, done: Seq<AnnotationFieldView>) -> Result<
    (Seq<AnnotationFieldView>, int),
    ParseError,
>
    decreases text.len() - i,
    when 0 <= i <= text.len()
{
    let j = skip_ws(text, i);
    if holds(text, j, ')') {
        Ok((done, j + 1))
    } else {
        match ident_at(text, j) {
            None => Err(error_at(text, ParseErrorKind::UnexpectedToken, j)),
            Some((name, e)) => {
                let k = skip_ws(text, e);
                if !holds(text, k, ':') {
                    Err(error_at(text, ParseErrorKind::UnexpectedToken, k))
                } else {
                    let from = skip_ws(text, k + 1);
                    if !(from < text.len() && is_ident_start(text[from])) {
                        Err(error_at(text, ParseErrorKind::UnexpectedToken, from))
                    } else {
                        let to = type_tail(text, ident_end(text, from));
                        let m = skip_ws(text, to);
                        let marked = holds(text, m, '?');
                        let n = if marked {
                            skip_ws(text, m + 1)
                        } else {
                            m
                        };
                        let field = AnnotationFieldView {
                            name,
                            ty: text.subrange(from, to),
                            is_nullable: marked,
                        };
                        proof {
                            lemma_skip_ws(text, i);
                            lemma_ident_end(text, j);
                            lemma_skip_ws(text, e);
                            lemma_skip_ws(text, k + 1);
                            lemma_ident_end(text, from);
                            lemma_type_tail(text, ident_end(text, from));
                            lemma_skip_ws(text, to);
                            if marked {
                                lemma_skip_ws(text, m + 1);
                            }
                        }
                        if holds(text, n, ',') {
                            field_list(text, n + 1, done.push(field))
                        } else if holds(text, n, ')') {
                            Ok((done.push(field), n + 1))
                        } else {
                            Err(error_at(text, ParseErrorKind::UnexpectedToken, n))
                        }
                    }
                }
            },
        }
    }
}

/// Reads the fields of an annotation (see [`field_list`]).
fn read_field_list(text: &str, chars: &Vec<char>, i: usize) -> (r: Result<
    (Vec<AnnotationField>, usize),
    ParseError,
>)
    requires
        chars@ == text@,
        i <= chars.len(),
        chars.len() < usize::MAX,
    ensures
        match r {
            Ok((fields, end)) => field_list(chars@, i as int, Seq::empty()) == Ok::<_, ParseError>(
                (views(fields@), end as int),
            ) && i < end <= chars.len(),
            Err(e) => field_list(chars@, i as int, Seq::empty()) == Err::<
                (Seq<AnnotationFieldView>, int),
                _,
            >(e),
        },
{
    let mut fields: Vec<AnnotationField> = Vec::new();
    let mut cur = i;
    assert(views(fields@) =~= Seq::<AnnotationFieldView>::empty());
    loop
        invariant
            chars@ == text@,
            i <= cur <= chars.len(),
            chars.len() < usize::MAX,
            field_list(chars@, i as int, Seq::empty()) == field_list(
                chars@,
                cur as int,
                views(fields@),
            ),
        decreases chars.len() - cur,
    {
        let j = skip_white_space(chars, cur);
        if at(chars, j, ')') {
            return Ok((fields, j + 1));
        }
        let (name, e) = match read_ident(text, chars, j) {
            None => {
                return fail(chars, ParseErrorKind::UnexpectedToken, j);
            },
            Some(found) => found,
        };
        let k = skip_white_space(chars, e);
        if !at(chars, k, ':') {
            return fail(chars, ParseErrorKind::UnexpectedToken, k);
        }
        let from = skip_white_space(chars, k + 1);
        if !(from < chars.len() && ident_start(chars[from])) {
            return fail(chars, ParseErrorKind::UnexpectedToken, from);
        }
        proof {
            lemma_ident_end(chars@, from as int);
        }
        let to = skip_type_tail(chars, skip_ident(chars, from));
        let m = skip_white_space(chars, to);
        let marked = at(chars, m, '?');
        let n = if marked {
            skip_white_space(chars, m + 1)
        } else {
            m
        };
        let ghost before = fields@;
        let field = AnnotationField {
            name,
            ty: text.substring_char(from, to).to_owned(),
            is_nullable: marked,
        };
        fields.push(field);
        proof {
            lemma_views_push(before, field);
        }
        if at(chars, n, ',') {
            cur = n + 1;
        } else if at(chars, n, ')') {
            return Ok((fields, n + 1));
        } else {
            return fail(chars, ParseErrorKind::UnexpectedToken, n);
        }
    }
}

/// The place of the first `;` from `i` on.
pub open spec fn semicolon(text: Seq<char>, i: int) -> Option<int>
    decreases text.len() - i,
{
    if i < 0 || i >= text.len() {
        None
    } else if text[i] == ';' {
        Some(i)
    } else {
        semicolon(text, i + 1)
    }
}

/// What `semicolon` gives is a place at or behind `i` that holds a `;`.
pub proof fn lemma_semicolon(text: Seq<char>, i: int)
    requires
        0 <= i,
    ensures
        semicolon(text, i) matches Some(at) ==> i <= at < text.len() && text[at] == ';',
    decreases text.len() - i,
{
    if i < text.len() && text[i] != ';' {
        lemma_semicolon(text, i + 1);
    }
}

/// Finds the first `;` (see [`semicolon`]).
fn find_semicolon(chars: &Vec<char>, i: usize) -> (r: Option<usize>)
    requires
        i <= chars.len(),
    ensures
        match r {
            Some(at) => semicolon(chars@, i as int) == Some(at as int) && i <= at < chars.len(),
            None => semicolon(chars@, i as int).is_none(),
        },
{
    let mut at = i;
    while at < chars.len()
        invariant
            i <= at <= chars.len(),
            semicolon(chars@, i as int) == semicolon(chars@, at as int),
        decreases chars.len() - at,
    {
        if chars[at] == ';' {
            return Some(at);
        }
        at += 1;
    }
    None
}

/// Where the SQL text of a query begins, `i` being the place behind the
/// closing parenthesis: behind an exclamation mark and a colon, if they are
/// there, and behind white space.
pub open spec fn body_start(text: Seq<char>, i: int) -> int {
    let a = skip_ws(text, i);
    let b = if holds(text, a, '!') {
        skip_ws(text, a + 1)
    } else {
        a
    };
    if holds(text, b, ':') {
        skip_ws(text, b + 1)
    } else {
        b
    }
}

/// Finds where the SQL text begins (see [`body_start`]).
fn find_body_start(chars: &Vec<char>, i: usize) -> (r: usize)
    requires
        i <= chars.len(),
    ensures
        r == body_start(chars@, i as int),
        i <= r <= chars.len(),
{
    let a = skip_white_space(chars, i);
    let b = if at(chars, a, '!') {
        skip_white_space(chars, a + 1)
    } else {
        a
    };
    if at(chars, b, ':') {
        skip_white_space(chars, b + 1)
    } else {
        b
    }
}

/// Place `k` mentions a bind parameter: it holds a colon that no colon
/// precedes and that the beginning of an identifier follows before `end`.
pub open spec fn is_mention(text: Seq<char>, k: int, end: int) -> bool {
    &&& holds(text, k, ':')
    &&& k + 1 < end
    &&& is_ident_start(text[k + 1])
    &&& !holds(text, k - 1, ':')
}

/// What stands for the bind parameter of number `n`.
pub open spec fn placeholder(n: nat) -> Seq<char> {
    seq!['$'] + decimal(n)
}

/// The place behind the name that a mention at `k` names, before `end` at
/// the latest.
pub open spec fn mention_end(text: Seq<char>, k: int, end: int) -> int {
    if ident_end(text, k + 1) > end {
        end
    } else {
        ident_end(text, k + 1)
    }
}

/// The SQL text from `k` to `end` with every mention of a bind parameter
/// replaced by its placeholder, added to `out`; and the bind parameters in
/// the order of their first mention, `names` being those mentioned before
/// `k`.
pub open spec fn bind_from(
    text: Seq<char>,
    k: int,
    end: int,
    out: Seq<char>,
    names: Seq<ParsedName>,
) -> (Seq<char>, Seq<ParsedName>)
    decreases end - k,
    when 0 <= k && end <= text.len()
{
    if k >= end {
        (out, names)
    } else if is_mention(text, k, end) {
        let e = mention_end(text, k, end);
        let name = text.subrange(k + 1, e);
        proof {
            lemma_ident_end(text, k + 1);
        }
        match index_of_name(names, key_of::<Parsed<String>>(), name) {
            Some(p) => bind_from(text, e, end, out + placeholder((p + 1) as nat), names),
            None => bind_from(
                text,
                e,
                end,
                out + placeholder(names.len() + 1),
                names.push(ParsedName { pos: position_at(text, k + 1), value: name }),
            ),
        }
    } else {
        bind_from(text, k + 1, end, out.push(text[k]), names)
    }
}

/// Replaces the mentions of bind parameters in the SQL text between two
/// places (see [`bind_from`]).
pub fn read_bind_params(text: &str, chars: &Vec<char>, from: usize, end: usize) -> (r: (
    String,
    Vec<Parsed<String>>,
))
    requires
        chars@ == text@,
        from <= end <= chars.len(),
        chars.len() < usize::MAX,
    ensures
        (r.0@, views(r.1@)) == bind_from(
            chars@,
            from as int,
            end as int,
            Seq::empty(),
            Seq::empty(),
        ),
{
    let mut out = String::new();
    let mut names: Vec<Parsed<String>> = Vec::new();
    let mut seg = from;
    let mut k = from;
    assert(views(names@) =~= Seq::<ParsedName>::empty());
    assert(out@ + chars@.subrange(seg as int, k as int) =~= Seq::<char>::empty());
    while k < end
        invariant
            chars@ == text@,
            from <= seg <= k <= end <= chars.len(),
            chars.len() < usize::MAX,
            names.len() <= k,
            bind_from(chars@, from as int, end as int, Seq::empty(), Seq::empty()) == bind_from(
                chars@,
                k as int,
                end as int,
                out@ + chars@.subrange(seg as int, k as int),
                views(names@),
            ),
        decreases end - k,
    {
        let mention = chars[k] == ':' && k + 1 < end && ident_start(chars[k + 1]) && !(k > 0
            && chars[k - 1] == ':');
        if mention {
            let stop = skip_ident(chars, k + 1);
            let e = if stop > end {
                end
            } else {
                stop
            };
            proof {
                lemma_ident_end(chars@, (k + 1) as int);
            }
            let name = text.substring_char(k + 1, e).to_owned();
            proof {
                assert(views(names@).take(names.len() as int) =~= views(names@));
                reveal_strlit("$");
                assert("$"@ =~= seq!['$']);
            }
            proof {
                crate::names::lemma_index_of_name(
                    views(names@),
                    key_of::<Parsed<String>>(),
                    name@,
                );
            }
            let number = match position_by_name(&names, names.len(), &name) {
                Some(p) => p + 1,
                None => {
                    let ghost before = names@;
                    let item = Parsed { pos: position(chars, k + 1), value: name };
                    names.push(item);
                    proof {
                        lemma_views_push(before, item);
                    }
                    names.len()
                },
            };
            let ghost written = out@ + chars@.subrange(seg as int, k as int);
            out.append(text.substring_char(seg, k));
            out.append("$");
            out.append(decimal_string(number).as_str());
            proof {
                assert(out@ + chars@.subrange(e as int, e as int) =~= written + placeholder(
                    number as nat,
                ));
            }
            seg = e;
            k = e;
        } else {
            proof {
                assert(out@ + chars@.subrange(seg as int, k + 1) =~= (out@ + chars@.subrange(
                    seg as int,
                    k as int,
                )).push(chars@[k as int]));
            }
            k += 1;
        }
    }
    let ghost written = out@ + chars@.subrange(seg as int, k as int);
    out.append(text.substring_char(seg, k));
    assert(out@ =~= written);
    (out, names)
}

/// The word before the parameters of a query in the older form.
pub open spec fn params_key() -> Seq<char> {
    seq!['p', 'a', 'r', 'a', 'm', 's']
}

/// The word before the nullable columns of a query in the older form.
pub open spec fn row_key() -> Seq<char> {
    seq!['r', 'o', 'w']
}

/// The list that the word `key` and `=>` introduce at place `i`, and the
/// place behind it; no list, and the place itself, where another word or no
/// word stands.
pub open spec fn keyed_list(text: Seq<char>, i: int, key: Seq<char>) -> Result<
    (Seq<NullableNameView>, int),
    ParseError,
> {
    match ident_at(text, i) {
        Some((name, e)) => if name.value == key {
            let k = skip_ws(text, e);
            if !(holds(text, k, '=') && holds(text, k + 1, '>')) {
                Err(error_at(text, ParseErrorKind::BadMetadataForm, k))
            } else {
                let l = skip_ws(text, k + 2);
                if !holds(text, l, '[') {
                    Err(error_at(text, ParseErrorKind::BadMetadataForm, l))
                } else {
                    name_list(text, l + 1, Seq::empty())
                }
            }
        } else {
            Ok((Seq::empty(), i))
        },
        None => Ok((Seq::empty(), i)),
    }
}

/// One thing that a query file holds.
pub enum ItemView {
    Annotation(TypeAnnotationView),
    Query(ParsedQueryView),
}

/// The query in the older form whose name is read and whose opening
/// parenthesis stands before place `i`, and the place behind its `;`.
pub open spec fn older_query(text: Seq<char>, name: ParsedName, i: int) -> Result<
    (ItemView, int),
    ParseError,
> {
    match keyed_list(text, skip_ws(text, i), params_key()) {
        Err(e) => Err(e),
        Ok((params, first_end)) => {
            let c = skip_ws(text, first_end);
            let c2 = if holds(text, c, ',') {
                skip_ws(text, c + 1)
            } else {
                c
            };
            match keyed_list(text, c2, row_key()) {
                Err(e) => Err(e),
                Ok((row, second_end)) => {
                    let d = skip_ws(text, second_end);
                    if !holds(text, d, ')') {
                        Err(error_at(text, ParseErrorKind::BadMetadataForm, d))
                    } else {
                        let b = body_start(text, d + 1);
                        match semicolon(text, b) {
                            None => Err(error_at(text, ParseErrorKind::UnterminatedQuery, b)),
                            Some(semi) => Ok(
                                (
                                    ItemView::Query(
                                        ParsedQueryView::PgCompatible {
                                            name,
                                            params,
                                            row: unmarked(row),
                                            sql_str: text.subrange(b, semi),
                                        },
                                    ),
                                    semi + 1,
                                ),
                            ),
                        }
                    }
                },
            }
        },
    }
}

/// The query with two descriptions whose name is read and whose opening
/// parenthesis stands before place `i`, and the place behind its `;`.
pub open spec fn extended_query(text: Seq<char>, name: ParsedName, i: int) -> Result<
    (ItemView, int),
    ParseError,
> {
    match descriptor(text, i) {
        Err(e) => Err(e),
        Ok((params, first_end)) => {
            let c = skip_ws(text, first_end);
            if !holds(text, c, ',') {
                Err(error_at(text, ParseErrorKind::BadMetadataForm, c))
            } else {
                match descriptor(text, c + 1) {
                    Err(e) => Err(e),
                    Ok((row, second_end)) => {
                        let d = skip_ws(text, second_end);
                        if !holds(text, d, ')') {
                            Err(error_at(text, ParseErrorKind::BadMetadataForm, d))
                        } else {
                            let b = body_start(text, d + 1);
                            match semicolon(text, b) {
                                None => Err(error_at(text, ParseErrorKind::UnterminatedQuery, b)),
                                Some(semi) => {
                                    let bound = bind_from(
                                        text,
                                        b,
                                        semi,
                                        Seq::empty(),
                                        Seq::empty(),
                                    );
                                    Ok(
                                        (
                                            ItemView::Query(
                                                ParsedQueryView::Extended {
                                                    name,
                                                    params,
                                                    bind_params: bound.1,
                                                    row,
                                                    sql_str: bound.0,
                                                },
                                            ),
                                            semi + 1,
                                        ),
                                    )
                                },
                            }
                        }
                    },
                }
            }
        },
    }
}

/// The annotation or query that begins at place `j`, and the place behind
/// it. After the name and the opening parenthesis, a bracket or a name with
/// a comma behind it begins a query with two descriptions; a closing
/// parenthesis or a name with `=>` behind it, a query in the older form; a
/// name with a colon behind it, an annotation.
pub open spec fn item(text: Seq<char>, j: int) -> Result<(ItemView, int), ParseError> {
    match ident_at(text, j) {
        None => Err(error_at(text, ParseErrorKind::UnexpectedToken, j)),
        Some((name, e)) => {
            let p = skip_ws(text, e);
            if !holds(text, p, '(') {
                Err(error_at(text, ParseErrorKind::BadMetadataForm, p))
            } else {
                let a = skip_ws(text, p + 1);
                if holds(text, a, '[') {
                    extended_query(text, name, p + 1)
                } else if holds(text, a, ')') {
                    older_query(text, name, p + 1)
                } else {
                    match ident_at(text, a) {
                        None => Err(error_at(text, ParseErrorKind::BadMetadataForm, a)),
                        Some((_, fe)) => {
                            let b = skip_ws(text, fe);
                            if holds(text, b, ':') {
                                match field_list(text, p + 1, Seq::empty()) {
                                    Ok((fields, end)) => Ok(
                                        (
                                            ItemView::Annotation(
                                                TypeAnnotationView { name, fields },
                                            ),
                                            end,
                                        ),
                                    ),
                                    Err(e) => Err(e),
                                }
                            } else if holds(text, b, ',') {
                                extended_query(text, name, p + 1)
                            } else if holds(text, b, '=') && holds(text, b + 1, '>') {
                                older_query(text, name, p + 1)
                            } else {
                                Err(error_at(text, ParseErrorKind::BadMetadataForm, b))
                            }
                        },
                    }
                }
            }
        },
    }
}

/// What a file holds from place `i` on, added to the annotations and the
/// queries read before. An annotation behind a query is refused.
pub open spec fn items(
    text: Seq<char>,
    i: int,
    types: Seq<TypeAnnotationView>,
    queries: Seq<ParsedQueryView>,
) -> Result<(Seq<TypeAnnotationView>, Seq<ParsedQueryView>), ParseError>
    decreases text.len() - i,
    when 0 <= i <= text.len()
{
    let j = skip_ws(text, i);
    if j >= text.len() {
        Ok((types, queries))
    } else {
        proof {
            lemma_skip_ws(text, i);
            lemma_item(text, j);
        }
        match item(text, j) {
            Err(e) => Err(e),
            Ok((ItemView::Annotation(annotation), end)) => if queries.len() > 0 {
                Err(error_at(text, ParseErrorKind::BadMetadataForm, j))
            } else {
                items(text, end, types.push(annotation), queries)
            },
            Ok((ItemView::Query(query), end)) => items(text, end, types, queries.push(query)),
        }
    }
}

/// The module that the text of a query file holds. Every annotation stands
/// both among those for parameters and among those for rows.
pub open spec fn parse_spec(path: Seq<char>, name: Seq<char>, text: Seq<char>) -> Result<
    ParsedModuleView,
    ParseError,
> {
    match items(text, 0, Seq::empty(), Seq::empty()) {
        Ok((types, queries)) => Ok(
            ParsedModuleView { path, name, queries, param_types: types, row_types: types },
        ),
        Err(e) => Err(e),
    }
}

/// A list of names ends behind the place at which it is entered.
pub proof fn lemma_name_list(text: Seq<char>, i: int, done: Seq<NullableNameView>)
    requires
        0 <= i <= text.len(),
    ensures
        name_list(text, i, done) matches Ok((_, end)) ==> i < end <= text.len(),
    decreases text.len() - i,
{
    let j = skip_ws(text, i);
    lemma_skip_ws(text, i);
    if !holds(text, j, ']') {
        if let Some((name, e)) = ident_at(text, j) {
            lemma_ident_end(text, j);
            let k = skip_ws(text, e);
            lemma_skip_ws(text, e);
            let marked = holds(text, k, '?');
            let m = if marked {
                skip_ws(text, k + 1)
            } else {
                k
            };
            if marked {
                lemma_skip_ws(text, k + 1);
            }
            let next = if holds(text, m, ',') {
                m + 1
            } else {
                m
            };
            lemma_name_list(
                text,
                next,
                done.push(NullableNameView { pos: name.pos, name: name.value, is_nullable: marked }),
            );
        }
    }
}

/// A list of fields ends behind the place at which it is entered.
pub proof fn lemma_field_list(text: Seq<char>, i: int, done: Seq<AnnotationFieldView>)
    requires
        0 <= i <= text.len(),
    ensures
        field_list(text, i, done) matches Ok((_, end)) ==> i < end <= text.len(),
    decreases text.len() - i,
{
    let j = skip_ws(text, i);
    lemma_skip_ws(text, i);
    if !holds(text, j, ')') {
        if let Some((name, e)) = ident_at(text, j) {
            lemma_ident_end(text, j);
            let k = skip_ws(text, e);
            lemma_skip_ws(text, e);
            if holds(text, k, ':') {
                let from = skip_ws(text, k + 1);
                lemma_skip_ws(text, k + 1);
                if from < text.len() && is_ident_start(text[from]) {
                    lemma_ident_end(text, from);
                    let to = type_tail(text, ident_end(text, from));
                    lemma_type_tail(text, ident_end(text, from));
                    let m = skip_ws(text, to);
                    lemma_skip_ws(text, to);
                    let marked = holds(text, m, '?');
                    let n = if marked {
                        skip_ws(text, m + 1)
                    } else {
                        m
                    };
                    if marked {
                        lemma_skip_ws(text, m + 1);
                    }
                    if holds(text, n, ',') {
                        lemma_field_list(
                            text,
                            n + 1,
                            done.push(
                                AnnotationFieldView {
                                    name,
                                    ty: text.subrange(from, to),
                                    is_nullable: marked,
                                },
                            ),
                        );
                    }
                }
            }
        }
    }
}

/// A description ends behind the place at which it is looked for.
pub proof fn lemma_descriptor(text: Seq<char>, i: int)
    requires
        0 <= i <= text.len(),
    ensures
        descriptor(text, i) matches Ok((_, end)) ==> i < end <= text.len(),
{
    let j = skip_ws(text, i);
    lemma_skip_ws(text, i);
    if holds(text, j, '[') {
        lemma_name_list(text, j + 1, Seq::empty());
    } else {
        lemma_ident_end(text, j);
    }
}

/// A list that a word introduces ends at or behind the place at which it is
/// looked for.
pub proof fn lemma_keyed_list(text: Seq<char>, i: int, key: Seq<char>)
    requires
        0 <= i <= text.len(),
    ensures
        keyed_list(text, i, key) matches Ok((_, end)) ==> i <= end <= text.len(),
{
    if let Some((name, e)) = ident_at(text, i) {
        lemma_ident_end(text, i);
        let k = skip_ws(text, e);
        lemma_skip_ws(text, e);
        if holds(text, k, '=') && holds(text, k + 1, '>') {
            let l = skip_ws(text, k + 2);
            lemma_skip_ws(text, k + 2);
            if holds(text, l, '[') {
                lemma_name_list(text, l + 1, Seq::empty());
            }
        }
    }
}

/// The SQL text begins at or behind the closing parenthesis, in the text.
pub proof fn lemma_body_start(text: Seq<char>, i: int)
    requires
        0 <= i <= text.len(),
    ensures
        i <= body_start(text, i) <= text.len(),
{
    let a = skip_ws(text, i);
    lemma_skip_ws(text, i);
    let b = if holds(text, a, '!') {
        skip_ws(text, a + 1)
    } else {
        a
    };
    if holds(text, a, '!') {
        lemma_skip_ws(text, a + 1);
    }
    if holds(text, b, ':') {
        lemma_skip_ws(text, b + 1);
    }
}

/// An annotation or a query ends behind the place at which it begins.
pub proof fn lemma_item(text: Seq<char>, j: int)
    requires
        0 <= j <= text.len(),
    ensures
        item(text, j) matches Ok((_, end)) ==> j < end <= text.len(),
{
    if let Some((name, e)) = ident_at(text, j) {
        lemma_ident_end(text, j);
        let p = skip_ws(text, e);
        lemma_skip_ws(text, e);
        if holds(text, p, '(') {
            lemma_field_list(text, p + 1, Seq::empty());
            // a query with two descriptions
            lemma_descriptor(text, p + 1);
            if let Ok((_, first_end)) = descriptor(text, p + 1) {
                let c = skip_ws(text, first_end);
                lemma_skip_ws(text, first_end);
                if holds(text, c, ',') {
                    lemma_descriptor(text, c + 1);
                    if let Ok((_, second_end)) = descriptor(text, c + 1) {
                        let d = skip_ws(text, second_end);
                        lemma_skip_ws(text, second_end);
                        if holds(text, d, ')') {
                            lemma_body_start(text, d + 1);
                            lemma_semicolon(text, body_start(text, d + 1));
                        }
                    }
                }
            }
            // a query in the older form
            let a = skip_ws(text, p + 1);
            lemma_skip_ws(text, p + 1);
            lemma_keyed_list(text, a, params_key());
            if let Ok((_, first_end)) = keyed_list(text, a, params_key()) {
                let c = skip_ws(text, first_end);
                lemma_skip_ws(text, first_end);
                let c2 = if holds(text, c, ',') {
                    skip_ws(text, c + 1)
                } else {
                    c
                };
                if holds(text, c, ',') {
                    lemma_skip_ws(text, c + 1);
                }
                lemma_keyed_list(text, c2, row_key());
                if let Ok((_, second_end)) = keyed_list(text, c2, row_key()) {
                    let d = skip_ws(text, second_end);
                    lemma_skip_ws(text, second_end);
                    if holds(text, d, ')') {
                        lemma_body_start(text, d + 1);
                        lemma_semicolon(text, body_start(text, d + 1));
                    }
                }
            }
        }
    }
}

/// Reads the list that a word introduces (see [`keyed_list`]).
fn read_keyed_list(text: &str, chars: &Vec<char>, i: usize, key: &String) -> (r: Result<
    (Vec<Parsed<NullableIdent>>, usize),
    ParseError,
>)
    requires
        chars@ == text@,
        i <= chars.len(),
        chars.len() < usize::MAX,
    ensures
        match r {
            Ok((names, end)) => keyed_list(chars@, i as int, key@) == Ok::<_, ParseError>(
                (views(names@), end as int),
            ) && i <= end <= chars.len(),
            Err(e) => keyed_list(chars@, i as int, key@) == Err::<(Seq<NullableNameView>, int), _>(
                e,
            ),
        },
{
    let none: Vec<Parsed<NullableIdent>> = Vec::new();
    assert(views(none@) =~= Seq::<NullableNameView>::empty());
    match read_ident(text, chars, i) {
        Some((name, e)) => {
            if name.value == *key {
                let k = skip_white_space(chars, e);
                if !(at(chars, k, '=') && at(chars, k + 1, '>')) {
                    return fail(chars, ParseErrorKind::BadMetadataForm, k);
                }
                let l = skip_white_space(chars, k + 2);
                if !at(chars, l, '[') {
                    return fail(chars, ParseErrorKind::BadMetadataForm, l);
                }
                read_name_list(text, chars, l + 1)
            } else {
                Ok((none, i))
            }
        },
        None => Ok((none, i)),
    }
}

/// What a query ends in: the place at which its SQL text begins and the
/// place of its `;`.
fn read_body(chars: &Vec<char>, i: usize) -> (r: Result<(usize, usize), ParseError>)
    requires
        i <= chars.len(),
        chars.len() < usize::MAX,
    ensures
        match r {
            Ok((from, semi)) => from == body_start(chars@, i as int) && semicolon(
                chars@,
                from as int,
            ) == Some(semi as int) && i <= from <= semi < chars.len(),
            Err(e) => semicolon(chars@, body_start(chars@, i as int)).is_none() && e == error_at(
                chars@,
                ParseErrorKind::UnterminatedQuery,
                body_start(chars@, i as int),
            ),
        },
{
    let from = find_body_start(chars, i);
    match find_semicolon(chars, from) {
        Some(semi) => Ok((from, semi)),
        None => fail(chars, ParseErrorKind::UnterminatedQuery, from),
    }
}

/// One thing that a query file holds.
pub enum Item {
    Annotation(TypeAnnotation),
    Query(ParsedQuery),
}

impl View for Item {
    type V = ItemView;

    open spec fn view(&self) -> ItemView {
        match *self {
            Item::Annotation(annotation) => ItemView::Annotation(annotation@),
            Item::Query(query) => ItemView::Query(query@),
        }
    }
}

/// Reads a query in the older form (see [`older_query`]).
fn read_older_query(text: &str, chars: &Vec<char>, name: Parsed<String>, i: usize) -> (r: Result<
    (Item, usize),
    ParseError,
>)
    requires
        chars@ == text@,
        i <= chars.len(),
        chars.len() < usize::MAX,
    ensures
        match r {
            Ok((found, end)) => older_query(chars@, name@, i as int) == Ok::<_, ParseError>(
                (found@, end as int),
            ) && i < end <= chars.len(),
            Err(e) => older_query(chars@, name@, i as int) == Err::<(ItemView, int), _>(e),
        },
{
    proof {
        reveal_strlit("params");
        reveal_strlit("row");
        assert("params"@ =~= params_key());
        assert("row"@ =~= row_key());
    }
    let a = skip_white_space(chars, i);
    let (params, first_end) = match read_keyed_list(text, chars, a, &"params".to_owned()) {
        Ok(found) => found,
        Err(e) => {
            return Err(e);
        },
    };
    let c = skip_white_space(chars, first_end);
    let c2 = if at(chars, c, ',') {
        skip_white_space(chars, c + 1)
    } else {
        c
    };
    let (row, second_end) = match read_keyed_list(text, chars, c2, &"row".to_owned()) {
        Ok(found) => found,
        Err(e) => {
            return Err(e);
        },
    };
    let d = skip_white_space(chars, second_end);
    if !at(chars, d, ')') {
        return fail(chars, ParseErrorKind::BadMetadataForm, d);
    }
    let (from, semi) = match read_body(chars, d + 1) {
        Ok(found) => found,
        Err(e) => {
            return Err(e);
        },
    };
    let query = ParsedQuery::PgCompatible {
        name,
        params,
        row: into_unmarked(row),
        sql_str: text.substring_char(from, semi).to_owned(),
    };
    Ok((Item::Query(query), semi + 1))
}

/// Reads a query with two descriptions (see [`extended_query`]).
fn read_extended_query(text: &str, chars: &Vec<char>, name: Parsed<String>, i: usize) -> (r: Result<
    (Item, usize),
    ParseError,
>)
    requires
        chars@ == text@,
        i <= chars.len(),
        chars.len() < usize::MAX,
    ensures
        match r {
            Ok((found, end)) => extended_query(chars@, name@, i as int) == Ok::<_, ParseError>(
                (found@, end as int),
            ) && i < end <= chars.len(),
            Err(e) => extended_query(chars@, name@, i as int) == Err::<(ItemView, int), _>(e),
        },
{
    let (params, first_end) = match read_descriptor(text, chars, i) {
        Ok(found) => found,
        Err(e) => {
            return Err(e);
        },
    };
    let c = skip_white_space(chars, first_end);
    if !at(chars, c, ',') {
        return fail(chars, ParseErrorKind::BadMetadataForm, c);
    }
    let (row, second_end) = match read_descriptor(text, chars, c + 1) {
        Ok(found) => found,
        Err(e) => {
            return Err(e);
        },
    };
    let d = skip_white_space(chars, second_end);
    if !at(chars, d, ')') {
        return fail(chars, ParseErrorKind::BadMetadataForm, d);
    }
    let (from, semi) = match read_body(chars, d + 1) {
        Ok(found) => found,
        Err(e) => {
            return Err(e);
        },
    };
    let (sql_str, bind_params) = read_bind_params(text, chars, from, semi);
    let query = ParsedQuery::Extended { name, params, bind_params, row, sql_str };
    Ok((Item::Query(query), semi + 1))
}

/// Reads the annotation or query that begins at a place (see [`item`]).
fn read_item(text: &str, chars: &Vec<char>, j: usize) -> (r: Result<(Item, usize), ParseError>)
    requires
        chars@ == text@,
        j <= chars.len(),
        chars.len() < usize::MAX,
    ensures
        match r {
            Ok((found, end)) => item(chars@, j as int) == Ok::<_, ParseError>((found@, end as int))
                && j < end <= chars.len(),
            Err(e) => item(chars@, j as int) == Err::<(ItemView, int), _>(e),
        },
{
    let (name, e) = match read_ident(text, chars, j) {
        Some(found) => found,
        None => {
            return fail(chars, ParseErrorKind::UnexpectedToken, j);
        },
    };
    let p = skip_white_space(chars, e);
    if !at(chars, p, '(') {
        return fail(chars, ParseErrorKind::BadMetadataForm, p);
    }
    let a = skip_white_space(chars, p + 1);
    if at(chars, a, '[') {
        return read_extended_query(text, chars, name, p + 1);
    }
    if at(chars, a, ')') {
        return read_older_query(text, chars, name, p + 1);
    }
    let fe = skip_ident(chars, a);
    if !(a < chars.len() && ident_start(chars[a])) {
        return fail(chars, ParseErrorKind::BadMetadataForm, a);
    }
    let b = skip_white_space(chars, fe);
    if at(chars, b, ':') {
        match read_field_list(text, chars, p + 1) {
            Ok((fields, end)) => Ok((Item::Annotation(TypeAnnotation { name, fields }), end)),
            Err(e) => Err(e),
        }
    } else if at(chars, b, ',') {
        read_extended_query(text, chars, name, p + 1)
    } else if at(chars, b, '=') && at(chars, b + 1, '>') {
        read_older_query(text, chars, name, p + 1)
    } else {
        fail(chars, ParseErrorKind::BadMetadataForm, b)
    }
}

/// A copy of an annotation.
fn duplicate_annotation(annotation: &TypeAnnotation) -> (r: TypeAnnotation)
    ensures
        r@ == annotation@,
{
    let mut fields: Vec<AnnotationField> = Vec::new();
    let mut i: usize = 0;
    while i < annotation.fields.len()
        invariant
            i <= annotation.fields.len(),
            fields.len() == i,
            forall|k: int| 0 <= k < i ==> fields[k]@ == annotation.fields[k]@,
        decreases annotation.fields.len() - i,
    {
        let field = &annotation.fields[i];
        fields.push(
            AnnotationField {
                name: field.name.clone(),
                ty: field.ty.clone(),
                is_nullable: field.is_nullable,
            },
        );
        i += 1;
    }
    assert(views(fields@) =~= views(annotation.fields@));
    TypeAnnotation { name: annotation.name.clone(), fields }
}

/// Reads the text of a query file (see [`parse_spec`]) into the module of
/// the given name, which came from the file at `path`.
pub fn parse_module(path: String, name: String, text: &str) -> (r: Result<ParsedModule, ParseError>)
    requires
        text@.len() < usize::MAX,
    ensures
        match r {
            Ok(module) => parse_spec(path@, name@, text@) == Ok::<_, ParseError>(module@),
            Err(e) => parse_spec(path@, name@, text@) == Err::<ParsedModuleView, _>(e),
        },
{
    let chars = chars_of(text);
    let mut param_types: Vec<TypeAnnotation> = Vec::new();
    let mut row_types: Vec<TypeAnnotation> = Vec::new();
    let mut queries: Vec<ParsedQuery> = Vec::new();
    let mut cur: usize = 0;
    proof {
        assert(views(param_types@) =~= Seq::<TypeAnnotationView>::empty());
        assert(views(row_types@) =~= Seq::<TypeAnnotationView>::empty());
        assert(views(queries@) =~= Seq::<ParsedQueryView>::empty());
    }
    loop
        invariant
            chars@ == text@,
            cur <= chars.len(),
            chars.len() < usize::MAX,
            views(row_types@) == views(param_types@),
            items(chars@, 0, Seq::empty(), Seq::empty()) == items(
                chars@,
                cur as int,
                views(param_types@),
                views(queries@),
            ),
        decreases chars.len() - cur,
    {
        let j = skip_white_space(&chars, cur);
        if j >= chars.len() {
            return Ok(ParsedModule { path, name, queries, param_types, row_types });
        }
        match read_item(text, &chars, j) {
            Err(e) => {
                return Err(e);
            },
            Ok((Item::Annotation(annotation), end)) => {
                if queries.len() > 0 {
                    return fail(&chars, ParseErrorKind::BadMetadataForm, j);
                }
                let copy = duplicate_annotation(&annotation);
                proof {
                    lemma_views_push(param_types@, annotation);
                    lemma_views_push(row_types@, copy);
                }
                param_types.push(annotation);
                row_types.push(copy);
                cur = end;
            },
            Ok((Item::Query(query), end)) => {
                proof {
                    lemma_views_push(queries@, query);
                }
                queries.push(query);
                cur = end;
            },
        }
    }
}

} // verus!
