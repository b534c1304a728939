//! The grammar of protocol definitions, over the tokens of the lexer.
//!
//! Each rule is a spec function from a token index to the value it parses
//! and the index after it, or to the index of the first token that does not
//! fit with what was expected there. The executable parser computes exactly
//! these functions.
use vstd::prelude::*;

use crate::ast::{
    Attribute, Definition, EnumerationDefinition, EnumerationField, Identifier, SpecAlias,
    SpecAttribute, SpecDefinition, SpecEnum, SpecEnumField, SpecStruct, SpecStructField, SpecType,
    SpecUnion, SpecUnionField, StructureDefinition, StructureField, TypeDefinition, TypeIdentifier,
    UnionDefinition, UnionField,
};
use crate::lexer::{Token, TokenKind, lex, tokenize};
use crate::text::{chars_of, string_of};

verus! {

/// What the parser expected where it failed.
#[derive(Debug, PartialEq, Eq, Structural, Clone, Copy)]
pub enum Expected {
    Identifier,
    Digit,
    UnsignedInteger,
    SmallInteger,
    LeftBrace,
    RightBrace,
    RightBracket,
    Semicolon,
    Colon,
    MapsTo,
    Equal,
    Comma,
    DoubleDot,
    Definition,
    Comment,
    Attribute,
    Type,
}

pub open spec fn expected_label(e: Expected) -> Seq<char> {
    match e {
        Expected::Identifier => "identifier"@,
        Expected::Digit => "digit"@,
        Expected::UnsignedInteger => "unsigned integer"@,
        Expected::SmallInteger => "unsigned integer below 2^64"@,
        Expected::LeftBrace => "left brace ({)"@,
        Expected::RightBrace => "right brace (})"@,
        Expected::RightBracket => "right bracket (])"@,
        Expected::Semicolon => "semicolon (;)"@,
        Expected::Colon => "colon (:)"@,
        Expected::MapsTo => "maps to (=>)"@,
        Expected::Equal => "equal (=)"@,
        Expected::Comma => "comma (,)"@,
        Expected::DoubleDot => "double dot (..)"@,
        Expected::Definition => "definition"@,
        Expected::Comment => "comment"@,
        Expected::Attribute => "attribute"@,
        Expected::Type => "type"@,
    }
}

/// The outcome of a rule: a value and the index after it, or the index of
/// the offending token and what was expected there.
pub type Parsed<V> = Result<(V, int), (int, Seq<Expected>)>;

pub open spec fn kind_at(toks: Seq<Token>, t: int) -> Option<TokenKind> {
    if 0 <= t < toks.len() {
        Some(toks[t].kind)
    } else {
        None
    }
}

pub open spec fn is_kind(toks: Seq<Token>, t: int, k: TokenKind) -> bool {
    kind_at(toks, t) == Some(k)
}

/// The text of the word at `t`, if a word is there.
pub open spec fn word_at(s: Seq<char>, toks: Seq<Token>, t: int) -> Option<Seq<char>> {
    if is_kind(toks, t, TokenKind::Word) {
        Some(s.subrange(toks[t].start as int, toks[t].end as int))
    } else {
        None
    }
}

/// `es`, preceded by a further digit when the token at `t` directly follows
/// a number literal.
pub open spec fn expecting(s: Seq<char>, toks: Seq<Token>, t: int, es: Seq<Expected>) -> Seq<
    Expected,
> {
    if 0 < t <= toks.len() && toks[t - 1].kind is Number && (if t < toks.len() {
        toks[t].start == toks[t - 1].end
    } else {
        toks[t - 1].end == s.len()
    }) {
        seq![Expected::Digit] + es
    } else {
        es
    }
}

pub open spec fn p_punct(s: Seq<char>, toks: Seq<Token>, t: int, k: TokenKind, e: Expected) -> Parsed<()> {
    if is_kind(toks, t, k) {
        Ok(((), t + 1))
    } else {
        Err((t, expecting(s, toks, t, seq![e])))
    }
}

pub open spec fn p_word(s: Seq<char>, toks: Seq<Token>, t: int) -> Parsed<Seq<char>> {
    match word_at(s, toks, t) {
        Some(w) => Ok((w, t + 1)),
        None => Err((t, seq![Expected::Identifier])),
    }
}

pub open spec fn p_number(toks: Seq<Token>, t: int) -> Parsed<u64> {
    match kind_at(toks, t) {
        Some(TokenKind::Number(Some(v))) => Ok((v, t + 1)),
        Some(TokenKind::Number(None)) => Err((t, seq![Expected::SmallInteger])),
        _ => Err((t, seq![Expected::UnsignedInteger])),
    }
}

/// The built-in scalar a word names, if any.
pub open spec fn builtin_named(w: Seq<char>) -> Option<SpecType> {
    if w == "int8"@ {
        Some(SpecType::Integer8)
    } else if w == "int16"@ {
        Some(SpecType::Integer16)
    } else if w == "int32"@ {
        Some(SpecType::Integer32)
    } else if w == "int64"@ {
        Some(SpecType::Integer64)
    } else if w == "uint8"@ {
        Some(SpecType::UnsignedInteger8)
    } else if w == "uint16"@ {
        Some(SpecType::UnsignedInteger16)
    } else if w == "uint32"@ {
        Some(SpecType::UnsignedInteger32)
    } else if w == "uint64"@ {
        Some(SpecType::UnsignedInteger64)
    } else if w == "float32"@ {
        Some(SpecType::Float32)
    } else if w == "float64"@ {
        Some(SpecType::Float64)
    } else if w == "bit"@ {
        Some(SpecType::Bit)
    } else if w == "byte"@ {
        Some(SpecType::Byte)
    } else {
        None
    }
}

/// Array suffixes `[N]` and `[]` after the type `ty`, applied left to right.
pub open spec fn p_type_suffixes(s: Seq<char>, toks: Seq<Token>, t: int, ty: SpecType) -> Parsed<
    SpecType,
>
    decreases toks.len() - t,
{
    if is_kind(toks, t, TokenKind::LeftBracket) {
        if is_kind(toks, t + 1, TokenKind::RightBracket) {
            p_type_suffixes(s, toks, t + 2, SpecType::DynamicArray(Box::new(ty)))
        } else {
            match kind_at(toks, t + 1) {
                Some(TokenKind::Number(Some(n))) => if is_kind(toks, t + 2, TokenKind::RightBracket) {
                    p_type_suffixes(s, toks, t + 3, SpecType::StaticArray(Box::new(ty), n))
                } else {
                    Err((t + 2, expecting(s, toks, t + 2, seq![Expected::RightBracket])))
                },
                Some(TokenKind::Number(None)) => Err((t + 1, seq![Expected::SmallInteger])),
                _ => Err((t + 1, seq![Expected::UnsignedInteger, Expected::RightBracket])),
            }
        }
    } else {
        Ok((ty, t))
    }
}

/// A type: a built-in scalar or a user-defined name, then array suffixes.
pub open spec fn p_type(s: Seq<char>, toks: Seq<Token>, t: int) -> Parsed<SpecType> {
    match word_at(s, toks, t) {
        Some(w) => p_type_suffixes(
            s,
            toks,
            t + 1,
            match builtin_named(w) {
                Some(b) => b,
                None => SpecType::UserDefined(w),
            },
        ),
        None => Err((t, seq![Expected::Type])),
    }
}

/// `name = value;` or `name = start..end;`
pub open spec fn p_enum_field(s: Seq<char>, toks: Seq<Token>, t: int) -> Parsed<SpecEnumField> {
    match p_word(s, toks, t) {
        Err(e) => Err(e),
        Ok((name, _)) => match p_punct(s, toks, t + 1, TokenKind::Equal, Expected::Equal) {
            Err(e) => Err(e),
            Ok(_) => match p_number(toks, t + 2) {
                Err(e) => Err(e),
                Ok((v, _)) => if is_kind(toks, t + 3, TokenKind::DoubleDot) {
                    match p_number(toks, t + 4) {
                        Err(e) => Err(e),
                        Ok((w, _)) => match p_punct(
                            s,
                            toks,
                            t + 5,
                            TokenKind::Semicolon,
                            Expected::Semicolon,
                        ) {
                            Err(e) => Err(e),
                            Ok(_) => Ok((SpecEnumField::RangeOfValues(name, v, w), t + 6)),
                        },
                    }
                } else if is_kind(toks, t + 3, TokenKind::Semicolon) {
                    Ok((SpecEnumField::SingleValue(name, v), t + 4))
                } else {
                    Err(
                        (
                            t + 3,
                            expecting(
                                s,
                                toks,
                                t + 3,
                                seq![Expected::DoubleDot, Expected::Semicolon],
                            ),
                        ),
                    )
                },
            },
        },
    }
}

/// What may start the next field of a list, or close it once it has one.
pub open spec fn field_or_close(nonempty: bool, first: Expected) -> Seq<Expected> {
    if nonempty {
        seq![first, Expected::RightBrace]
    } else {
        seq![first]
    }
}

/// Enumeration fields up to and including the closing brace; `acc` holds the
/// fields read so far.
pub open spec fn p_enum_fields(
    s: Seq<char>,
    toks: Seq<Token>,
    t: int,
    acc: Seq<SpecEnumField>,
) -> Parsed<Seq<SpecEnumField>>
    decreases toks.len() - t,
{
    if acc.len() > 0 && is_kind(toks, t, TokenKind::RightBrace) {
        Ok((acc, t + 1))
    } else if !is_kind(toks, t, TokenKind::Word) {
        Err((t, field_or_close(acc.len() > 0, Expected::Identifier)))
    } else {
        match p_enum_field(s, toks, t) {
            Err(e) => Err(e),
            Ok((f, next)) => p_enum_fields(s, toks, next, acc.push(f)),
        }
    }
}

/// `enum name { fields };` from the keyword at `t`.
pub open spec fn p_enum(s: Seq<char>, toks: Seq<Token>, t: int) -> Parsed<SpecEnum> {
    match p_word(s, toks, t + 1) {
        Err(e) => Err(e),
        Ok((name, _)) => match p_punct(s, toks, t + 2, TokenKind::LeftBrace, Expected::LeftBrace) {
            Err(e) => Err(e),
            Ok(_) => match p_enum_fields(s, toks, t + 3, Seq::empty()) {
                Err(e) => Err(e),
                Ok((fields, next)) => match p_punct(
                    s,
                    toks,
                    next,
                    TokenKind::Semicolon,
                    Expected::Semicolon,
                ) {
                    Err(e) => Err(e),
                    Ok((_, end)) => Ok((SpecEnum { name, fields }, end)),
                },
            },
        },
    }
}

/// `discriminated_by = name`, `bits = n` or `bytes = n`.
pub open spec fn p_attribute(s: Seq<char>, toks: Seq<Token>, t: int) -> Parsed<SpecAttribute> {
    match word_at(s, toks, t) {
        Some(w) => if w == "discriminated_by"@ {
            match p_punct(s, toks, t + 1, TokenKind::Equal, Expected::Equal) {
                Err(e) => Err(e),
                Ok(_) => match p_word(s, toks, t + 2) {
                    Err(e) => Err(e),
                    Ok((f, _)) => Ok((SpecAttribute::DiscriminatedBy(f), t + 3)),
                },
            }
        } else if w == "bits"@ || w == "bytes"@ {
            match p_punct(s, toks, t + 1, TokenKind::Equal, Expected::Equal) {
                Err(e) => Err(e),
                Ok(_) => match p_number(toks, t + 2) {
                    Err(e) => Err(e),
                    Ok((n, _)) => Ok(
                        (
                            if w == "bits"@ {
                                SpecAttribute::BitsSize(n)
                            } else {
                                SpecAttribute::BytesSize(n)
                            },
                            t + 3,
                        ),
                    ),
                },
            }
        } else {
            Err((t, seq![Expected::Attribute]))
        },
        None => Err((t, seq![Expected::Attribute])),
    }
}

/// Attributes separated by commas, up to and including the closing bracket.
pub open spec fn p_attribute_list(
    s: Seq<char>,
    toks: Seq<Token>,
    t: int,
    acc: Seq<SpecAttribute>,
) -> Parsed<Seq<SpecAttribute>>
    decreases toks.len() - t,
{
    match p_attribute(s, toks, t) {
        Err(e) => Err(e),
        Ok((a, next)) => if is_kind(toks, next, TokenKind::Comma) {
            p_attribute_list(s, toks, next + 1, acc.push(a))
        } else if is_kind(toks, next, TokenKind::RightBracket) {
            Ok((acc.push(a), next + 1))
        } else {
            Err((next, expecting(s, toks, next, seq![Expected::Comma, Expected::RightBracket])))
        },
    }
}

/// `[attributes] name: type;` where the attributes are optional.
pub open spec fn p_struct_field(s: Seq<char>, toks: Seq<Token>, t: int) -> Parsed<SpecStructField> {
    let attributes = if is_kind(toks, t, TokenKind::LeftBracket) {
        p_attribute_list(s, toks, t + 1, Seq::empty())
    } else {
        Ok((Seq::empty(), t))
    };
    match attributes {
        Err(e) => Err(e),
        Ok((attributes, u)) => match p_word(s, toks, u) {
            Err(e) => Err(e),
            Ok((name, _)) => match p_punct(s, toks, u + 1, TokenKind::Colon, Expected::Colon) {
                Err(e) => Err(e),
                Ok(_) => match p_type(s, toks, u + 2) {
                    Err(e) => Err(e),
                    Ok((typ, v)) => match p_punct(
                        s,
                        toks,
                        v,
                        TokenKind::Semicolon,
                        Expected::Semicolon,
                    ) {
                        Err(e) => Err(e),
                        Ok((_, end)) => Ok((SpecStructField { name, typ, attributes }, end)),
                    },
                },
            },
        },
    }
}

pub open spec fn p_struct_fields(
    s: Seq<char>,
    toks: Seq<Token>,
    t: int,
    acc: Seq<SpecStructField>,
) -> Parsed<Seq<SpecStructField>>
    decreases toks.len() - t via p_struct_fields_decreases
{
    if acc.len() > 0 && is_kind(toks, t, TokenKind::RightBrace) {
        Ok((acc, t + 1))
    } else if !is_kind(toks, t, TokenKind::Word) && !is_kind(toks, t, TokenKind::LeftBracket) {
        Err((t, field_or_close(acc.len() > 0, Expected::Identifier)))
    } else {
        match p_struct_field(s, toks, t) {
            Err(e) => Err(e),
            Ok((f, next)) => p_struct_fields(s, toks, next, acc.push(f)),
        }
    }
}

/// `struct name { fields };` from the keyword at `t`.
pub open spec fn p_struct(s: Seq<char>, toks: Seq<Token>, t: int) -> Parsed<SpecStruct> {
    match p_word(s, toks, t + 1) {
        Err(e) => Err(e),
        Ok((name, _)) => match p_punct(s, toks, t + 2, TokenKind::LeftBrace, Expected::LeftBrace) {
            Err(e) => Err(e),
            Ok(_) => match p_struct_fields(s, toks, t + 3, Seq::empty()) {
                Err(e) => Err(e),
                Ok((fields, next)) => match p_punct(
                    s,
                    toks,
                    next,
                    TokenKind::Semicolon,
                    Expected::Semicolon,
                ) {
                    Err(e) => Err(e),
                    Ok((_, end)) => Ok((SpecStruct { name, fields }, end)),
                },
            },
        },
    }
}

/// `name: type;` at `t`, the member of a union field.
pub open spec fn p_member(s: Seq<char>, toks: Seq<Token>, t: int) -> Parsed<(Seq<char>, SpecType)> {
    match p_word(s, toks, t) {
        Err(e) => Err(e),
        Ok((name, _)) => match p_punct(s, toks, t + 1, TokenKind::Colon, Expected::Colon) {
            Err(e) => Err(e),
            Ok(_) => match p_type(s, toks, t + 2) {
                Err(e) => Err(e),
                Ok((typ, v)) => match p_punct(s, toks, v, TokenKind::Semicolon, Expected::Semicolon) {
                    Err(e) => Err(e),
                    Ok((_, end)) => Ok(((name, typ), end)),
                },
            },
        },
    }
}

/// `value => name: type;` or `start..end => name: type;`
pub open spec fn p_union_field(s: Seq<char>, toks: Seq<Token>, t: int) -> Parsed<SpecUnionField> {
    match p_number(toks, t) {
        Err(e) => Err(e),
        Ok((a, _)) => if is_kind(toks, t + 1, TokenKind::DoubleDot) {
            match p_number(toks, t + 2) {
                Err(e) => Err(e),
                Ok((b, _)) => match p_punct(s, toks, t + 3, TokenKind::MapsTo, Expected::MapsTo) {
                    Err(e) => Err(e),
                    Ok(_) => match p_member(s, toks, t + 4) {
                        Err(e) => Err(e),
                        Ok(((name, typ), end)) => Ok(
                            (SpecUnionField::RangeOfValues(name, typ, a, b), end),
                        ),
                    },
                },
            }
        } else if is_kind(toks, t + 1, TokenKind::MapsTo) {
            match p_member(s, toks, t + 2) {
                Err(e) => Err(e),
                Ok(((name, typ), end)) => Ok((SpecUnionField::SingleValue(name, typ, a), end)),
            }
        } else {
            Err((t + 1, expecting(s, toks, t + 1, seq![Expected::DoubleDot, Expected::MapsTo])))
        },
    }
}

pub open spec fn p_union_fields(
    s: Seq<char>,
    toks: Seq<Token>,
    t: int,
    acc: Seq<SpecUnionField>,
) -> Parsed<Seq<SpecUnionField>>
    decreases toks.len() - t via p_union_fields_decreases
{
    if acc.len() > 0 && is_kind(toks, t, TokenKind::RightBrace) {
        Ok((acc, t + 1))
    } else if !(kind_at(toks, t) matches Some(TokenKind::Number(_))) {
        Err((t, field_or_close(acc.len() > 0, Expected::UnsignedInteger)))
    } else {
        match p_union_field(s, toks, t) {
            Err(e) => Err(e),
            Ok((f, next)) => p_union_fields(s, toks, next, acc.push(f)),
        }
    }
}

/// `union name { fields };` from the keyword at `t`.
pub open spec fn p_union(s: Seq<char>, toks: Seq<Token>, t: int) -> Parsed<SpecUnion> {
    match p_word(s, toks, t + 1) {
        Err(e) => Err(e),
        Ok((name, _)) => match p_punct(s, toks, t + 2, TokenKind::LeftBrace, Expected::LeftBrace) {
            Err(e) => Err(e),
            Ok(_) => match p_union_fields(s, toks, t + 3, Seq::empty()) {
                Err(e) => Err(e),
                Ok((fields, next)) => match p_punct(
                    s,
                    toks,
                    next,
                    TokenKind::Semicolon,
                    Expected::Semicolon,
                ) {
                    Err(e) => Err(e),
                    Ok((_, end)) => Ok((SpecUnion { name, fields }, end)),
                },
            },
        },
    }
}

/// `using name = type;` from the keyword at `t`.
pub open spec fn p_alias(s: Seq<char>, toks: Seq<Token>, t: int) -> Parsed<SpecAlias> {
    match p_word(s, toks, t + 1) {
        Err(e) => Err(e),
        Ok((new_type, _)) => match p_punct(s, toks, t + 2, TokenKind::Equal, Expected::Equal) {
            Err(e) => Err(e),
            Ok(_) => match p_type(s, toks, t + 3) {
                Err(e) => Err(e),
                Ok((typ, v)) => match p_punct(s, toks, v, TokenKind::Semicolon, Expected::Semicolon) {
                    Err(e) => Err(e),
                    Ok((_, end)) => Ok((SpecAlias { new_type, typ }, end)),
                },
            },
        },
    }
}

/// A declaration, chosen by its keyword.
pub open spec fn p_definition(s: Seq<char>, toks: Seq<Token>, t: int) -> Parsed<SpecDefinition> {
    let keyword = word_at(s, toks, t);
    if keyword == Some("enum"@) {
        match p_enum(s, toks, t) {
            Err(e) => Err(e),
            Ok((d, end)) => Ok((SpecDefinition::Enumeration(d), end)),
        }
    } else if keyword == Some("struct"@) {
        match p_struct(s, toks, t) {
            Err(e) => Err(e),
            Ok((d, end)) => Ok((SpecDefinition::Structure(d), end)),
        }
    } else if keyword == Some("union"@) {
        match p_union(s, toks, t) {
            Err(e) => Err(e),
            Ok((d, end)) => Ok((SpecDefinition::Union(d), end)),
        }
    } else if keyword == Some("using"@) {
        match p_alias(s, toks, t) {
            Err(e) => Err(e),
            Ok((d, end)) => Ok((SpecDefinition::Type(d), end)),
        }
    } else {
        Err((t, seq![Expected::Definition, Expected::Comment]))
    }
}

/// Declarations and comments up to the end of the tokens.
pub open spec fn p_module(
    s: Seq<char>,
    toks: Seq<Token>,
    t: int,
    acc: Seq<SpecDefinition>,
) -> Parsed<Seq<SpecDefinition>>
    decreases toks.len() - t via p_module_decreases
{
    if t >= toks.len() {
        Ok((acc, t))
    } else if is_kind(toks, t, TokenKind::Comment) {
        p_module(s, toks, t + 1, acc)
    } else {
        match p_definition(s, toks, t) {
            Err(e) => Err(e),
            Ok((d, next)) => p_module(s, toks, next, acc.push(d)),
        }
    }
}

proof fn lemma_type_suffixes_advance(s: Seq<char>, toks: Seq<Token>, t: int, ty: SpecType)
    ensures
        p_type_suffixes(s, toks, t, ty) matches Ok((_, u)) ==> u >= t,
    decreases toks.len() - t,
{
    if is_kind(toks, t, TokenKind::LeftBracket) {
        if is_kind(toks, t + 1, TokenKind::RightBracket) {
            lemma_type_suffixes_advance(s, toks, t + 2, SpecType::DynamicArray(Box::new(ty)));
        } else if let Some(TokenKind::Number(Some(n))) = kind_at(toks, t + 1) {
            if is_kind(toks, t + 2, TokenKind::RightBracket) {
                lemma_type_suffixes_advance(
                    s,
                    toks,
                    t + 3,
                    SpecType::StaticArray(Box::new(ty), n),
                );
            }
        }
    }
}

proof fn lemma_type_advance(s: Seq<char>, toks: Seq<Token>, t: int)
    ensures
        p_type(s, toks, t) matches Ok((_, u)) ==> u > t,
{
    if let Some(w) = word_at(s, toks, t) {
        let base = match builtin_named(w) {
            Some(b) => b,
            None => SpecType::UserDefined(w),
        };
        lemma_type_suffixes_advance(s, toks, t + 1, base);
    }
}

proof fn lemma_attribute_list_advance(
    s: Seq<char>,
    toks: Seq<Token>,
    t: int,
    acc: Seq<SpecAttribute>,
)
    ensures
        p_attribute_list(s, toks, t, acc) matches Ok((_, u)) ==> u > t,
    decreases toks.len() - t,
{
    if let Ok((a, next)) = p_attribute(s, toks, t) {
        if is_kind(toks, next, TokenKind::Comma) {
            lemma_attribute_list_advance(s, toks, next + 1, acc.push(a));
        }
    }
}

proof fn lemma_struct_field_advance(s: Seq<char>, toks: Seq<Token>, t: int)
    ensures
        p_struct_field(s, toks, t) matches Ok((_, u)) ==> u > t,
{
    lemma_attribute_list_advance(s, toks, t + 1, Seq::empty());
    if is_kind(toks, t, TokenKind::LeftBracket) {
        if let Ok((_, u)) = p_attribute_list(s, toks, t + 1, Seq::empty()) {
            lemma_type_advance(s, toks, u + 2);
        }
    } else {
        lemma_type_advance(s, toks, t + 2);
    }
}

proof fn lemma_union_field_advance(s: Seq<char>, toks: Seq<Token>, t: int)
    ensures
        p_union_field(s, toks, t) matches Ok((_, u)) ==> u > t,
{
    lemma_type_advance(s, toks, t + 6);
    lemma_type_advance(s, toks, t + 4);
}

#[via_fn]
proof fn p_struct_fields_decreases(
    s: Seq<char>,
    toks: Seq<Token>,
    t: int,
    acc: Seq<SpecStructField>,
) {
    lemma_struct_field_advance(s, toks, t);
}

#[via_fn]
proof fn p_union_fields_decreases(
    s: Seq<char>,
    toks: Seq<Token>,
    t: int,
    acc: Seq<SpecUnionField>,
) {
    lemma_union_field_advance(s, toks, t);
}

proof fn lemma_enum_fields_advance(
    s: Seq<char>,
    toks: Seq<Token>,
    t: int,
    acc: Seq<SpecEnumField>,
)
    ensures
        p_enum_fields(s, toks, t, acc) matches Ok((_, u)) ==> u > t,
    decreases toks.len() - t,
{
    if !(acc.len() > 0 && is_kind(toks, t, TokenKind::RightBrace)) && is_kind(
        toks,
        t,
        TokenKind::Word,
    ) {
        if let Ok((f, next)) = p_enum_field(s, toks, t) {
            lemma_enum_fields_advance(s, toks, next, acc.push(f));
        }
    }
}

proof fn lemma_struct_fields_advance(
    s: Seq<char>,
    toks: Seq<Token>,
    t: int,
    acc: Seq<SpecStructField>,
)
    ensures
        p_struct_fields(s, toks, t, acc) matches Ok((_, u)) ==> u > t,
    decreases toks.len() - t,
{
    lemma_struct_field_advance(s, toks, t);
    if !(acc.len() > 0 && is_kind(toks, t, TokenKind::RightBrace)) {
        if let Ok((f, next)) = p_struct_field(s, toks, t) {
            lemma_struct_fields_advance(s, toks, next, acc.push(f));
        }
    }
}

proof fn lemma_union_fields_advance(
    s: Seq<char>,
    toks: Seq<Token>,
    t: int,
    acc: Seq<SpecUnionField>,
)
    ensures
        p_union_fields(s, toks, t, acc) matches Ok((_, u)) ==> u > t,
    decreases toks.len() - t,
{
    lemma_union_field_advance(s, toks, t);
    if !(acc.len() > 0 && is_kind(toks, t, TokenKind::RightBrace)) {
        if let Ok((f, next)) = p_union_field(s, toks, t) {
            lemma_union_fields_advance(s, toks, next, acc.push(f));
        }
    }
}

proof fn lemma_definition_advance(s: Seq<char>, toks: Seq<Token>, t: int)
    ensures
        p_definition(s, toks, t) matches Ok((_, u)) ==> u > t,
{
    lemma_enum_fields_advance(s, toks, t + 3, Seq::empty());
    lemma_struct_fields_advance(s, toks, t + 3, Seq::empty());
    lemma_union_fields_advance(s, toks, t + 3, Seq::empty());
    lemma_type_advance(s, toks, t + 3);
}

#[via_fn]
proof fn p_module_decreases(s: Seq<char>, toks: Seq<Token>, t: int, acc: Seq<SpecDefinition>) {
    lemma_definition_advance(s, toks, t);
}

/// Every token spans characters of the text.
pub open spec fn tokens_within(s: Seq<char>, toks: Seq<Token>) -> bool {
    forall|k: int| 0 <= k < toks.len() ==> #[trigger] toks[k].start <= toks[k].end <= s.len()
}

/// The executable outcome of a rule agrees with the rule.
pub open spec fn agrees<V: View>(r: Result<(V, usize), (usize, Vec<Expected>)>, p: Parsed<V::V>) -> bool {
    match r {
        Ok((v, t)) => p == Ok::<(V::V, int), (int, Seq<Expected>)>((v@, t as int)),
        Err((t, es)) => p == Err::<(V::V, int), (int, Seq<Expected>)>((t as int, es@)),
    }
}

pub open spec fn agrees_unit(r: Result<usize, (usize, Vec<Expected>)>, p: Parsed<()>) -> bool {
    match r {
        Ok(t) => p == Ok::<((), int), (int, Seq<Expected>)>(((), t as int)),
        Err((t, es)) => p == Err::<((), int), (int, Seq<Expected>)>((t as int, es@)),
    }
}

/// The printed form of an expectation.
pub fn label(e: Expected) -> (r: &'static str)
    ensures
        r@ == expected_label(e),
{
    match e {
        Expected::Identifier => "identifier",
        Expected::Digit => "digit",
        Expected::UnsignedInteger => "unsigned integer",
        Expected::SmallInteger => "unsigned integer below 2^64",
        Expected::LeftBrace => "left brace ({)",
        Expected::RightBrace => "right brace (})",
        Expected::RightBracket => "right bracket (])",
        Expected::Semicolon => "semicolon (;)",
        Expected::Colon => "colon (:)",
        Expected::MapsTo => "maps to (=>)",
        Expected::Equal => "equal (=)",
        Expected::Comma => "comma (,)",
        Expected::DoubleDot => "double dot (..)",
        Expected::Definition => "definition",
        Expected::Comment => "comment",
        Expected::Attribute => "attribute",
        Expected::Type => "type",
    }
}

fn one(e: Expected) -> (r: Vec<Expected>)
    ensures
        r@ == seq![e],
{
    let mut r: Vec<Expected> = Vec::new();
    r.push(e);
    assert(r@ =~= seq![e]);
    r
}

fn two(a: Expected, b: Expected) -> (r: Vec<Expected>)
    ensures
        r@ == seq![a, b],
{
    let mut r: Vec<Expected> = Vec::new();
    r.push(a);
    r.push(b);
    assert(r@ =~= seq![a, b]);
    r
}

pub(crate) fn kind_of(toks: &Vec<Token>, t: usize) -> (r: Option<TokenKind>)
    ensures
        r == kind_at(toks@, t as int),
        toks@.len() <= usize::MAX,
{
    if t < toks.len() {
        Some(toks[t].kind)
    } else {
        None
    }
}

pub(crate) fn has_kind(toks: &Vec<Token>, t: usize, k: TokenKind) -> (r: bool)
    ensures
        r == is_kind(toks@, t as int, k),
        toks@.len() <= usize::MAX,
{
    kind_of(toks, t) == Some(k)
}

/// `es`, preceded by a further digit when the token at `t` directly follows
/// a number literal.
fn expecting_at(s: &Vec<char>, toks: &Vec<Token>, t: usize, es: Vec<Expected>) -> (r: Vec<Expected>)
    requires
        t <= toks@.len(),
    ensures
        r@ == expecting(s@, toks@, t as int, es@),
{
    if t > 0 && matches!(toks[t - 1].kind, TokenKind::Number(_)) && (if t < toks.len() {
        toks[t].start == toks[t - 1].end
    } else {
        toks[t - 1].end == s.len()
    }) {
        let mut r = one(Expected::Digit);
        let mut k: usize = 0;
        while k < es.len()
            invariant
                k <= es@.len(),
                r@ == seq![Expected::Digit] + es@.subrange(0, k as int),
            decreases es@.len() - k,
        {
            r.push(es[k]);
            k = k + 1;
            assert(r@ =~= seq![Expected::Digit] + es@.subrange(0, k as int));
        }
        assert(es@.subrange(0, k as int) =~= es@);
        r
    } else {
        es
    }
}

fn parse_punct(s: &Vec<char>, toks: &Vec<Token>, t: usize, k: TokenKind, e: Expected) -> (r: Result<
    usize,
    (usize, Vec<Expected>),
>)
    requires
        t <= toks@.len(),
    ensures
        agrees_unit(r, p_punct(s@, toks@, t as int, k, e)),
        r matches Ok(u) ==> u <= toks@.len(),
{
    if has_kind(toks, t, k) {
        Ok(t + 1)
    } else {
        Err((t, expecting_at(s, toks, t, one(e))))
    }
}

fn parse_word(s: &Vec<char>, toks: &Vec<Token>, t: usize) -> (r: Result<
    (Identifier, usize),
    (usize, Vec<Expected>),
>)
    requires
        t <= toks@.len(),
        tokens_within(s@, toks@),
    ensures
        agrees(r, p_word(s@, toks@, t as int)),
        r matches Ok((_, u)) ==> u <= toks@.len(),
{
    if has_kind(toks, t, TokenKind::Word) {
        let name = string_of(s, toks[t].start, toks[t].end);
        Ok((Identifier { name }, t + 1))
    } else {
        Err((t, one(Expected::Identifier)))
    }
}

fn parse_number(toks: &Vec<Token>, t: usize) -> (r: Result<(u64, usize), (usize, Vec<Expected>)>)
    requires
        t <= toks@.len(),
    ensures
        agrees(r, p_number(toks@, t as int)),
        r matches Ok((_, u)) ==> u <= toks@.len(),
{
    let kind = kind_of(toks, t);
    match kind {
        Some(TokenKind::Number(Some(v))) => Ok((v, t + 1)),
        Some(TokenKind::Number(None)) => Err((t, one(Expected::SmallInteger))),
        _ => Err((t, one(Expected::UnsignedInteger))),
    }
}

pub(crate) fn is_text(w: &String, lit: &str) -> (r: bool)
    ensures
        r == (w@ == lit@),
{
    let other = String::from_str(lit);
    *w == other
}

fn builtin_of(w: &String) -> (r: Option<TypeIdentifier>)
    ensures
        match r {
            Some(t) => builtin_named(w@) == Some(t@),
            None => builtin_named(w@) is None,
        },
{
    if is_text(w, "int8") {
        Some(TypeIdentifier::Integer8)
    } else if is_text(w, "int16") {
        Some(TypeIdentifier::Integer16)
    } else if is_text(w, "int32") {
        Some(TypeIdentifier::Integer32)
    } else if is_text(w, "int64") {
        Some(TypeIdentifier::Integer64)
    } else if is_text(w, "uint8") {
        Some(TypeIdentifier::UnsignedInteger8)
    } else if is_text(w, "uint16") {
        Some(TypeIdentifier::UnsignedInteger16)
    } else if is_text(w, "uint32") {
        Some(TypeIdentifier::UnsignedInteger32)
    } else if is_text(w, "uint64") {
        Some(TypeIdentifier::UnsignedInteger64)
    } else if is_text(w, "float32") {
        Some(TypeIdentifier::Float32)
    } else if is_text(w, "float64") {
        Some(TypeIdentifier::Float64)
    } else if is_text(w, "bit") {
        Some(TypeIdentifier::Bit)
    } else if is_text(w, "byte") {
        Some(TypeIdentifier::Byte)
    } else {
        None
    }
}

fn parse_type(s: &Vec<char>, toks: &Vec<Token>, t: usize) -> (r: Result<
    (TypeIdentifier, usize),
    (usize, Vec<Expected>),
>)
    requires
        t <= toks@.len(),
        tokens_within(s@, toks@),
    ensures
        agrees(r, p_type(s@, toks@, t as int)),
        r matches Ok((_, u)) ==> u <= toks@.len(),
{
    let (word, mut u) = match parse_word(s, toks, t) {
        Ok(x) => x,
        Err(_) => {
            return Err((t, one(Expected::Type)));
        },
    };
    let mut ty = match builtin_of(&word.name) {
        Some(b) => b,
        None => TypeIdentifier::UserDefined(word),
    };
    loop
        invariant
            u <= toks@.len(),
            tokens_within(s@, toks@),
            p_type(s@, toks@, t as int) == p_type_suffixes(s@, toks@, u as int, ty@),
        decreases toks@.len() - u,
    {
        if !has_kind(toks, u, TokenKind::LeftBracket) {
            return Ok((ty, u));
        }
        if has_kind(toks, u + 1, TokenKind::RightBracket) {
            ty = TypeIdentifier::DynamicArray { typ: Box::new(ty) };
            u = u + 2;
        } else {
            match kind_of(toks, u + 1) {
                Some(TokenKind::Number(Some(n))) => {
                    if has_kind(toks, u + 2, TokenKind::RightBracket) {
                        ty = TypeIdentifier::StaticArray { typ: Box::new(ty), size: n };
                        u = u + 3;
                    } else {
                        return Err((u + 2, expecting_at(s, toks, u + 2, one(Expected::RightBracket))));
                    }
                },
                Some(TokenKind::Number(None)) => {
                    return Err((u + 1, one(Expected::SmallInteger)));
                },
                _ => {
                    return Err((u + 1, two(Expected::UnsignedInteger, Expected::RightBracket)));
                },
            }
        }
    }
}

fn parse_enum_field(s: &Vec<char>, toks: &Vec<Token>, t: usize) -> (r: Result<
    (EnumerationField, usize),
    (usize, Vec<Expected>),
>)
    requires
        t <= toks@.len(),
        tokens_within(s@, toks@),
    ensures
        agrees(r, p_enum_field(s@, toks@, t as int)),
        r matches Ok((_, u)) ==> u <= toks@.len(),
{
    let (name, _) = match parse_word(s, toks, t) {
        Ok(x) => x,
        Err(e) => {
            return Err(e);
        },
    };
    if let Err(e) = parse_punct(s, toks, t + 1, TokenKind::Equal, Expected::Equal) {
        return Err(e);
    }
    let (value, _) = match parse_number(toks, t + 2) {
        Ok(x) => x,
        Err(e) => {
            return Err(e);
        },
    };
    if has_kind(toks, t + 3, TokenKind::DoubleDot) {
        let (end, _) = match parse_number(toks, t + 4) {
            Ok(x) => x,
            Err(e) => {
                return Err(e);
            },
        };
        if let Err(e) = parse_punct(s, toks, t + 5, TokenKind::Semicolon, Expected::Semicolon) {
            return Err(e);
        }
        Ok((EnumerationField::RangeOfValues { name, start: value, end }, t + 6))
    } else if has_kind(toks, t + 3, TokenKind::Semicolon) {
        Ok((EnumerationField::SingleValue { name, value }, t + 4))
    } else {
        Err((t + 3, expecting_at(s, toks, t + 3, two(Expected::DoubleDot, Expected::Semicolon))))
    }
}

fn field_or_close_exec(nonempty: bool, first: Expected) -> (r: Vec<Expected>)
    ensures
        r@ == field_or_close(nonempty, first),
{
    if nonempty {
        two(first, Expected::RightBrace)
    } else {
        one(first)
    }
}

fn parse_enum(s: &Vec<char>, toks: &Vec<Token>, t: usize) -> (r: Result<
    (EnumerationDefinition, usize),
    (usize, Vec<Expected>),
>)
    requires
        t < toks@.len(),
        tokens_within(s@, toks@),
    ensures
        agrees(r, p_enum(s@, toks@, t as int)),
        r matches Ok((_, u)) ==> u <= toks@.len(),
{
    let _ = toks.len();
    let (name, _) = match parse_word(s, toks, t + 1) {
        Ok(x) => x,
        Err(e) => {
            return Err(e);
        },
    };
    if let Err(e) = parse_punct(s, toks, t + 2, TokenKind::LeftBrace, Expected::LeftBrace) {
        return Err(e);
    }
    let mut fields: Vec<EnumerationField> = Vec::new();
    let mut u: usize = t + 3;
    assert(fields@.map_values(|f: EnumerationField| f@) =~= Seq::<SpecEnumField>::empty());
    loop
        invariant_except_break
            u <= toks@.len(),
            tokens_within(s@, toks@),
            p_enum_fields(s@, toks@, t + 3, Seq::empty()) == p_enum_fields(
                s@,
                toks@,
                u as int,
                fields@.map_values(|f: EnumerationField| f@),
            ),
        invariant
            p_word(s@, toks@, t + 1) == Ok::<(Seq<char>, int), (int, Seq<Expected>)>(
                (name@, t + 2),
            ),
            is_kind(toks@, t + 2, TokenKind::LeftBrace),
        ensures
            u <= toks@.len(),
            p_enum_fields(s@, toks@, t + 3, Seq::empty()) == Ok::<
                (Seq<SpecEnumField>, int),
                (int, Seq<Expected>),
            >((fields@.map_values(|f: EnumerationField| f@), u as int)),
        decreases toks@.len() - u,
    {
        let ghost acc = fields@.map_values(|f: EnumerationField| f@);
        if fields.len() > 0 && has_kind(toks, u, TokenKind::RightBrace) {
            u = u + 1;
            break;
        }
        if !has_kind(toks, u, TokenKind::Word) {
            return Err((u, field_or_close_exec(fields.len() > 0, Expected::Identifier)));
        }
        match parse_enum_field(s, toks, u) {
            Ok((f, next)) => {
                fields.push(f);
                assert(fields@.map_values(|f: EnumerationField| f@) =~= acc.push(f@));
                u = next;
            },
            Err(e) => {
                return Err(e);
            },
        }
    }
    if let Err(e) = parse_punct(s, toks, u, TokenKind::Semicolon, Expected::Semicolon) {
        return Err(e);
    }
    Ok((EnumerationDefinition { name, fields }, u + 1))
}

fn parse_attribute(s: &Vec<char>, toks: &Vec<Token>, t: usize) -> (r: Result<
    (Attribute, usize),
    (usize, Vec<Expected>),
>)
    requires
        t <= toks@.len(),
        tokens_within(s@, toks@),
    ensures
        agrees(r, p_attribute(s@, toks@, t as int)),
        r matches Ok((_, u)) ==> u <= toks@.len(),
{
    let (word, _) = match parse_word(s, toks, t) {
        Ok(x) => x,
        Err(_) => {
            return Err((t, one(Expected::Attribute)));
        },
    };
    if is_text(&word.name, "discriminated_by") {
        if let Err(e) = parse_punct(s, toks, t + 1, TokenKind::Equal, Expected::Equal) {
            return Err(e);
        }
        match parse_word(s, toks, t + 2) {
            Ok((field, _)) => Ok((Attribute::DiscriminatedBy { field }, t + 3)),
            Err(e) => Err(e),
        }
    } else if is_text(&word.name, "bits") || is_text(&word.name, "bytes") {
        if let Err(e) = parse_punct(s, toks, t + 1, TokenKind::Equal, Expected::Equal) {
            return Err(e);
        }
        match parse_number(toks, t + 2) {
            Ok((size, _)) => if is_text(&word.name, "bits") {
                Ok((Attribute::BitsSize { size }, t + 3))
            } else {
                Ok((Attribute::BytesSize { size }, t + 3))
            },
            Err(e) => Err(e),
        }
    } else {
        Err((t, one(Expected::Attribute)))
    }
}

/// The attributes after an opening bracket at `t - 1`.
fn parse_attribute_list(s: &Vec<char>, toks: &Vec<Token>, t: usize) -> (r: Result<
    (Vec<Attribute>, usize),
    (usize, Vec<Expected>),
>)
    requires
        t <= toks@.len(),
        tokens_within(s@, toks@),
    ensures
        match r {
            Ok((v, u)) => p_attribute_list(s@, toks@, t as int, Seq::empty()) == Ok::<
                (Seq<SpecAttribute>, int),
                (int, Seq<Expected>),
            >((v@.map_values(|a: Attribute| a@), u as int)) && u <= toks@.len(),
            Err((u, es)) => p_attribute_list(s@, toks@, t as int, Seq::empty()) == Err::<
                (Seq<SpecAttribute>, int),
                (int, Seq<Expected>),
            >((u as int, es@)),
        },
{
    let mut attributes: Vec<Attribute> = Vec::new();
    let mut u: usize = t;
    assert(attributes@.map_values(|a: Attribute| a@) =~= Seq::<SpecAttribute>::empty());
    loop
        invariant
            u <= toks@.len(),
            tokens_within(s@, toks@),
            p_attribute_list(s@, toks@, t as int, Seq::empty()) == p_attribute_list(
                s@,
                toks@,
                u as int,
                attributes@.map_values(|a: Attribute| a@),
            ),
        decreases toks@.len() - u,
    {
        let ghost acc = attributes@.map_values(|a: Attribute| a@);
        let (a, next) = match parse_attribute(s, toks, u) {
            Ok(x) => x,
            Err(e) => {
                return Err(e);
            },
        };
        attributes.push(a);
        assert(attributes@.map_values(|a: Attribute| a@) =~= acc.push(a@));
        if has_kind(toks, next, TokenKind::Comma) {
            u = next + 1;
        } else if has_kind(toks, next, TokenKind::RightBracket) {
            return Ok((attributes, next + 1));
        } else {
            return Err(
                (next, expecting_at(s, toks, next, two(Expected::Comma, Expected::RightBracket))),
            );
        }
    }
}

fn parse_struct_field(s: &Vec<char>, toks: &Vec<Token>, t: usize) -> (r: Result<
    (StructureField, usize),
    (usize, Vec<Expected>),
>)
    requires
        t <= toks@.len(),
        tokens_within(s@, toks@),
    ensures
        agrees(r, p_struct_field(s@, toks@, t as int)),
        r matches Ok((_, u)) ==> u <= toks@.len(),
{
    let (attributes, u) = if has_kind(toks, t, TokenKind::LeftBracket) {
        match parse_attribute_list(s, toks, t + 1) {
            Ok(x) => x,
            Err(e) => {
                return Err(e);
            },
        }
    } else {
        let v: Vec<Attribute> = Vec::new();
        assert(v@.map_values(|a: Attribute| a@) =~= Seq::<SpecAttribute>::empty());
        (v, t)
    };
    let (name, _) = match parse_word(s, toks, u) {
        Ok(x) => x,
        Err(e) => {
            return Err(e);
        },
    };
    if let Err(e) = parse_punct(s, toks, u + 1, TokenKind::Colon, Expected::Colon) {
        return Err(e);
    }
    let (typ, v) = match parse_type(s, toks, u + 2) {
        Ok(x) => x,
        Err(e) => {
            return Err(e);
        },
    };
    match parse_punct(s, toks, v, TokenKind::Semicolon, Expected::Semicolon) {
        Ok(end) => Ok((StructureField { name, typ, attributes }, end)),
        Err(e) => Err(e),
    }
}

fn parse_struct(s: &Vec<char>, toks: &Vec<Token>, t: usize) -> (r: Result<
    (StructureDefinition, usize),
    (usize, Vec<Expected>),
>)
    requires
        t < toks@.len(),
        tokens_within(s@, toks@),
    ensures
        agrees(r, p_struct(s@, toks@, t as int)),
        r matches Ok((_, u)) ==> u <= toks@.len(),
{
    let _ = toks.len();
    let (name, _) = match parse_word(s, toks, t + 1) {
        Ok(x) => x,
        Err(e) => {
            return Err(e);
        },
    };
    if let Err(e) = parse_punct(s, toks, t + 2, TokenKind::LeftBrace, Expected::LeftBrace) {
        return Err(e);
    }
    let mut fields: Vec<StructureField> = Vec::new();
    let mut u: usize = t + 3;
    assert(fields@.map_values(|f: StructureField| f@) =~= Seq::<SpecStructField>::empty());
    loop
        invariant_except_break
            u <= toks@.len(),
            tokens_within(s@, toks@),
            p_struct_fields(s@, toks@, t + 3, Seq::empty()) == p_struct_fields(
                s@,
                toks@,
                u as int,
                fields@.map_values(|f: StructureField| f@),
            ),
        invariant
            p_word(s@, toks@, t + 1) == Ok::<(Seq<char>, int), (int, Seq<Expected>)>(
                (name@, t + 2),
            ),
            is_kind(toks@, t + 2, TokenKind::LeftBrace),
        ensures
            u <= toks@.len(),
            p_struct_fields(s@, toks@, t + 3, Seq::empty()) == Ok::<
                (Seq<SpecStructField>, int),
                (int, Seq<Expected>),
            >((fields@.map_values(|f: StructureField| f@), u as int)),
        decreases toks@.len() - u,
    {
        let ghost acc = fields@.map_values(|f: StructureField| f@);
        if fields.len() > 0 && has_kind(toks, u, TokenKind::RightBrace) {
            u = u + 1;
            break;
        }
        if !has_kind(toks, u, TokenKind::Word) && !has_kind(toks, u, TokenKind::LeftBracket) {
            return Err((u, field_or_close_exec(fields.len() > 0, Expected::Identifier)));
        }
        match parse_struct_field(s, toks, u) {
            Ok((f, next)) => {
                proof {
                    lemma_struct_field_advance(s@, toks@, u as int);
                }
                fields.push(f);
                assert(fields@.map_values(|f: StructureField| f@) =~= acc.push(f@));
                u = next;
            },
            Err(e) => {
                return Err(e);
            },
        }
    }
    if let Err(e) = parse_punct(s, toks, u, TokenKind::Semicolon, Expected::Semicolon) {
        return Err(e);
    }
    Ok((StructureDefinition { name, fields }, u + 1))
}

/// `name: type;`, the member of a union field.
fn parse_member(s: &Vec<char>, toks: &Vec<Token>, t: usize) -> (r: Result<
    (Identifier, TypeIdentifier, usize),
    (usize, Vec<Expected>),
>)
    requires
        t <= toks@.len(),
        tokens_within(s@, toks@),
    ensures
        match r {
            Ok((name, typ, u)) => p_member(s@, toks@, t as int) == Ok::<
                ((Seq<char>, SpecType), int),
                (int, Seq<Expected>),
            >(((name@, typ@), u as int)) && u <= toks@.len(),
            Err((u, es)) => p_member(s@, toks@, t as int) == Err::<
                ((Seq<char>, SpecType), int),
                (int, Seq<Expected>),
            >((u as int, es@)),
        },
{
    let (name, _) = match parse_word(s, toks, t) {
        Ok(x) => x,
        Err(e) => {
            return Err(e);
        },
    };
    if let Err(e) = parse_punct(s, toks, t + 1, TokenKind::Colon, Expected::Colon) {
        return Err(e);
    }
    let (typ, v) = match parse_type(s, toks, t + 2) {
        Ok(x) => x,
        Err(e) => {
            return Err(e);
        },
    };
    match parse_punct(s, toks, v, TokenKind::Semicolon, Expected::Semicolon) {
        Ok(end) => Ok((name, typ, end)),
        Err(e) => Err(e),
    }
}

fn parse_union_field(s: &Vec<char>, toks: &Vec<Token>, t: usize) -> (r: Result<
    (UnionField, usize),
    (usize, Vec<Expected>),
>)
    requires
        t <= toks@.len(),
        tokens_within(s@, toks@),
    ensures
        agrees(r, p_union_field(s@, toks@, t as int)),
        r matches Ok((_, u)) ==> u <= toks@.len(),
{
    let (start, _) = match parse_number(toks, t) {
        Ok(x) => x,
        Err(e) => {
            return Err(e);
        },
    };
    if has_kind(toks, t + 1, TokenKind::DoubleDot) {
        let (end, _) = match parse_number(toks, t + 2) {
            Ok(x) => x,
            Err(e) => {
                return Err(e);
            },
        };
        if let Err(e) = parse_punct(s, toks, t + 3, TokenKind::MapsTo, Expected::MapsTo) {
            return Err(e);
        }
        match parse_member(s, toks, t + 4) {
            Ok((name, typ, u)) => Ok(
                (
                    UnionField::RangeOfValues {
                        name,
                        typ,
                        start_discriminator: start,
                        end_discriminator: end,
                    },
                    u,
                ),
            ),
            Err(e) => Err(e),
        }
    } else if has_kind(toks, t + 1, TokenKind::MapsTo) {
        match parse_member(s, toks, t + 2) {
            Ok((name, typ, u)) => Ok((UnionField::SingleValue { name, typ, discriminator: start }, u)),
            Err(e) => Err(e),
        }
    } else {
        Err((t + 1, expecting_at(s, toks, t + 1, two(Expected::DoubleDot, Expected::MapsTo))))
    }
}

fn parse_union(s: &Vec<char>, toks: &Vec<Token>, t: usize) -> (r: Result<
    (UnionDefinition, usize),
    (usize, Vec<Expected>),
>)
    requires
        t < toks@.len(),
        tokens_within(s@, toks@),
    ensures
        agrees(r, p_union(s@, toks@, t as int)),
        r matches Ok((_, u)) ==> u <= toks@.len(),
{
    let _ = toks.len();
    let (name, _) = match parse_word(s, toks, t + 1) {
        Ok(x) => x,
        Err(e) => {
            return Err(e);
        },
    };
    if let Err(e) = parse_punct(s, toks, t + 2, TokenKind::LeftBrace, Expected::LeftBrace) {
        return Err(e);
    }
    let mut fields: Vec<UnionField> = Vec::new();
    let mut u: usize = t + 3;
    assert(fields@.map_values(|f: UnionField| f@) =~= Seq::<SpecUnionField>::empty());
    loop
        invariant_except_break
            u <= toks@.len(),
            tokens_within(s@, toks@),
            p_union_fields(s@, toks@, t + 3, Seq::empty()) == p_union_fields(
                s@,
                toks@,
                u as int,
                fields@.map_values(|f: UnionField| f@),
            ),
        invariant
            p_word(s@, toks@, t + 1) == Ok::<(Seq<char>, int), (int, Seq<Expected>)>(
                (name@, t + 2),
            ),
            is_kind(toks@, t + 2, TokenKind::LeftBrace),
        ensures
            u <= toks@.len(),
            p_union_fields(s@, toks@, t + 3, Seq::empty()) == Ok::<
                (Seq<SpecUnionField>, int),
                (int, Seq<Expected>),
            >((fields@.map_values(|f: UnionField| f@), u as int)),
        decreases toks@.len() - u,
    {
        let ghost acc = fields@.map_values(|f: UnionField| f@);
        if fields.len() > 0 && has_kind(toks, u, TokenKind::RightBrace) {
            u = u + 1;
            break;
        }
        if !matches!(kind_of(toks, u), Some(TokenKind::Number(_))) {
            return Err((u, field_or_close_exec(fields.len() > 0, Expected::UnsignedInteger)));
        }
        match parse_union_field(s, toks, u) {
            Ok((f, next)) => {
                proof {
                    lemma_union_field_advance(s@, toks@, u as int);
                }
                fields.push(f);
                assert(fields@.map_values(|f: UnionField| f@) =~= acc.push(f@));
                u = next;
            },
            Err(e) => {
                return Err(e);
            },
        }
    }
    if let Err(e) = parse_punct(s, toks, u, TokenKind::Semicolon, Expected::Semicolon) {
        return Err(e);
    }
    Ok((UnionDefinition { name, fields }, u + 1))
}

fn parse_alias(s: &Vec<char>, toks: &Vec<Token>, t: usize) -> (r: Result<
    (TypeDefinition, usize),
    (usize, Vec<Expected>),
>)
    requires
        t < toks@.len(),
        tokens_within(s@, toks@),
    ensures
        agrees(r, p_alias(s@, toks@, t as int)),
        r matches Ok((_, u)) ==> u <= toks@.len(),
{
    let _ = toks.len();
    let (new_type, _) = match parse_word(s, toks, t + 1) {
        Ok(x) => x,
        Err(e) => {
            return Err(e);
        },
    };
    if let Err(e) = parse_punct(s, toks, t + 2, TokenKind::Equal, Expected::Equal) {
        return Err(e);
    }
    let (typ, v) = match parse_type(s, toks, t + 3) {
        Ok(x) => x,
        Err(e) => {
            return Err(e);
        },
    };
    match parse_punct(s, toks, v, TokenKind::Semicolon, Expected::Semicolon) {
        Ok(end) => Ok((TypeDefinition { new_type, typ }, end)),
        Err(e) => Err(e),
    }
}

fn parse_definition(s: &Vec<char>, toks: &Vec<Token>, t: usize) -> (r: Result<
    (Definition, usize),
    (usize, Vec<Expected>),
>)
    requires
        t < toks@.len(),
        tokens_within(s@, toks@),
    ensures
        agrees(r, p_definition(s@, toks@, t as int)),
        r matches Ok((_, u)) ==> u <= toks@.len(),
{
    let keyword = match parse_word(s, toks, t) {
        Ok((w, _)) => w,
        Err(_) => {
            return Err((t, two(Expected::Definition, Expected::Comment)));
        },
    };
    if is_text(&keyword.name, "enum") {
        match parse_enum(s, toks, t) {
            Ok((d, u)) => Ok((Definition::Enumeration(d), u)),
            Err(e) => Err(e),
        }
    } else if is_text(&keyword.name, "struct") {
        match parse_struct(s, toks, t) {
            Ok((d, u)) => Ok((Definition::Structure(d), u)),
            Err(e) => Err(e),
        }
    } else if is_text(&keyword.name, "union") {
        match parse_union(s, toks, t) {
            Ok((d, u)) => Ok((Definition::Union(d), u)),
            Err(e) => Err(e),
        }
    } else if is_text(&keyword.name, "using") {
        match parse_alias(s, toks, t) {
            Ok((d, u)) => Ok((Definition::Type(d), u)),
            Err(e) => Err(e),
        }
    } else {
        Err((t, two(Expected::Definition, Expected::Comment)))
    }
}

/// The declarations of a whole token sequence, comments skipped.
pub fn parse_module(s: &Vec<char>, toks: &Vec<Token>) -> (r: Result<
    Vec<Definition>,
    (usize, Vec<Expected>),
>)
    requires
        tokens_within(s@, toks@),
    ensures
        match r {
            Ok(v) => p_module(s@, toks@, 0, Seq::empty()) matches Ok((ds, _)) && ds == v@.map_values(
                |d: Definition| d@,
            ),
            Err((u, es)) => p_module(s@, toks@, 0, Seq::empty()) == Err::<
                (Seq<SpecDefinition>, int),
                (int, Seq<Expected>),
            >((u as int, es@)),
        },
{
    let mut definitions: Vec<Definition> = Vec::new();
    let mut t: usize = 0;
    assert(definitions@.map_values(|d: Definition| d@) =~= Seq::<SpecDefinition>::empty());
    while t < toks.len()
        invariant
            t <= toks@.len(),
            tokens_within(s@, toks@),
            p_module(s@, toks@, 0, Seq::empty()) == p_module(
                s@,
                toks@,
                t as int,
                definitions@.map_values(|d: Definition| d@),
            ),
        decreases toks@.len() - t,
    {
        let ghost acc = definitions@.map_values(|d: Definition| d@);
        if has_kind(toks, t, TokenKind::Comment) {
            t = t + 1;
        } else {
            match parse_definition(s, toks, t) {
                Ok((d, next)) => {
                    proof {
                        lemma_definition_advance(s@, toks@, t as int);
                    }
                    definitions.push(d);
                    assert(definitions@.map_values(|d: Definition| d@) =~= acc.push(d@));
                    t = next;
                },
                Err(e) => {
                    return Err(e);
                },
            }
        }
    }
    Ok(definitions)
}

/// `start..end`.
pub open spec fn p_range(toks: Seq<Token>, t: int) -> Parsed<(u64, u64)> {
    match p_number(toks, t) {
        Err(e) => Err(e),
        Ok((a, _)) => if !is_kind(toks, t + 1, TokenKind::DoubleDot) {
            Err((t + 1, seq![Expected::DoubleDot]))
        } else {
            match p_number(toks, t + 2) {
                Err(e) => Err(e),
                Ok((b, u)) => Ok(((a, b), u)),
            }
        },
    }
}

/// `, attribute`.
pub open spec fn p_attribute_tail(s: Seq<char>, toks: Seq<Token>, t: int) -> Parsed<SpecAttribute> {
    if !is_kind(toks, t, TokenKind::Comma) {
        Err((t, seq![Expected::Comma]))
    } else {
        p_attribute(s, toks, t + 1)
    }
}

/// `[attributes]`.
pub open spec fn p_attributes(s: Seq<char>, toks: Seq<Token>, t: int) -> Parsed<Seq<SpecAttribute>> {
    if !is_kind(toks, t, TokenKind::LeftBracket) {
        Err((t, seq![Expected::Attribute]))
    } else {
        p_attribute_list(s, toks, t + 1, Seq::empty())
    }
}

/// The value of a rule that spans all `n` tokens.
pub open spec fn whole<V>(p: Parsed<V>, n: int) -> Option<V> {
    match p {
        Ok((v, u)) => if u == n {
            Some(v)
        } else {
            None
        },
        Err(_) => None,
    }
}

pub open spec fn opt_agrees<V: View>(r: Option<V>, w: Option<V::V>) -> bool {
    match r {
        Some(v) => w == Some(v@),
        None => w is None,
    }
}

fn parse_range(toks: &Vec<Token>, t: usize) -> (r: Result<((u64, u64), usize), (usize, Vec<Expected>)>)
    requires
        t <= toks@.len(),
    ensures
        agrees(r, p_range(toks@, t as int)),
{
    let a = match parse_number(toks, t) {
        Ok((a, _)) => a,
        Err(e) => {
            return Err(e);
        },
    };
    if !has_kind(toks, t + 1, TokenKind::DoubleDot) {
        return Err((t + 1, one(Expected::DoubleDot)));
    }
    match parse_number(toks, t + 2) {
        Ok((b, u)) => Ok(((a, b), u)),
        Err(e) => Err(e),
    }
}

fn parse_attribute_tail(s: &Vec<char>, toks: &Vec<Token>, t: usize) -> (r: Result<
    (Attribute, usize),
    (usize, Vec<Expected>),
>)
    requires
        t <= toks@.len(),
        tokens_within(s@, toks@),
    ensures
        agrees(r, p_attribute_tail(s@, toks@, t as int)),
{
    if !has_kind(toks, t, TokenKind::Comma) {
        return Err((t, one(Expected::Comma)));
    }
    parse_attribute(s, toks, t + 1)
}

/// Parses the whole of `input` as a bracketed list of attributes.
pub fn attributes(input: &str) -> (r: Option<Vec<Attribute>>)
    ensures
        match r {
            Some(v) => whole(p_attributes(input@, lex(input@, 0), 0), lex(input@, 0).len() as int)
                == Some(v@.map_values(|a: Attribute| a@)),
            None => whole(p_attributes(input@, lex(input@, 0), 0), lex(input@, 0).len() as int) is None,
        },
{
    let s = chars_of(input);
    let toks = tokenize(&s);
    let _ = s.len();
    proof {
        crate::lemma_tokens_within(s@, 0);
    }
    if !has_kind(&toks, 0, TokenKind::LeftBracket) {
        return None;
    }
    match parse_attribute_list(&s, &toks, 1) {
        Ok((v, u)) => if u == toks.len() {
            Some(v)
        } else {
            None
        },
        Err(_) => None,
    }
}

/// Parses the whole of `input` as an identifier.
pub fn identifier(input: &str) -> (r: Option<Identifier>)
    ensures
        opt_agrees(r, whole(p_word(input@, lex(input@, 0), 0), lex(input@, 0).len() as int)),
{
    let s = chars_of(input);
    let toks = tokenize(&s);
    let _ = s.len();
    proof {
        crate::lemma_tokens_within(s@, 0);
    }
    match parse_word(&s, &toks, 0) {
        Ok((v, u)) => if u == toks.len() {
            Some(v)
        } else {
            None
        },
        Err(_) => None,
    }
}

/// Parses the whole of `input` as an unsigned integer literal.
pub fn unsigned_integer(input: &str) -> (r: Option<u64>)
    ensures
        opt_agrees(r, whole(p_number(lex(input@, 0), 0), lex(input@, 0).len() as int)),
{
    let s = chars_of(input);
    let toks = tokenize(&s);
    let _ = s.len();
    proof {
        crate::lemma_tokens_within(s@, 0);
    }
    match parse_number(&toks, 0) {
        Ok((v, u)) => if u == toks.len() {
            Some(v)
        } else {
            None
        },
        Err(_) => None,
    }
}

/// Parses the whole of `input` as a range `start..end`.
pub fn range(input: &str) -> (r: Option<(u64, u64)>)
    ensures
        opt_agrees(r, whole(p_range(lex(input@, 0), 0), lex(input@, 0).len() as int)),
{
    let s = chars_of(input);
    let toks = tokenize(&s);
    let _ = s.len();
    proof {
        crate::lemma_tokens_within(s@, 0);
    }
    match parse_range(&toks, 0) {
        Ok((v, u)) => if u == toks.len() {
            Some(v)
        } else {
            None
        },
        Err(_) => None,
    }
}

/// Parses the whole of `input` as a type.
pub fn type_identifier(input: &str) -> (r: Option<TypeIdentifier>)
    ensures
        opt_agrees(r, whole(p_type(input@, lex(input@, 0), 0), lex(input@, 0).len() as int)),
{
    let s = chars_of(input);
    let toks = tokenize(&s);
    let _ = s.len();
    proof {
        crate::lemma_tokens_within(s@, 0);
    }
    match parse_type(&s, &toks, 0) {
        Ok((v, u)) => if u == toks.len() {
            Some(v)
        } else {
            None
        },
        Err(_) => None,
    }
}

/// Parses the whole of `input` as an enumeration field, with its semicolon.
pub fn enumeration_field(input: &str) -> (r: Option<EnumerationField>)
    ensures
        opt_agrees(r, whole(p_enum_field(input@, lex(input@, 0), 0), lex(input@, 0).len() as int)),
{
    let s = chars_of(input);
    let toks = tokenize(&s);
    let _ = s.len();
    proof {
        crate::lemma_tokens_within(s@, 0);
    }
    match parse_enum_field(&s, &toks, 0) {
        Ok((v, u)) => if u == toks.len() {
            Some(v)
        } else {
            None
        },
        Err(_) => None,
    }
}

/// Parses the whole of `input` as an attribute.
pub fn attribute(input: &str) -> (r: Option<Attribute>)
    ensures
        opt_agrees(r, whole(p_attribute(input@, lex(input@, 0), 0), lex(input@, 0).len() as int)),
{
    let s = chars_of(input);
    let toks = tokenize(&s);
    let _ = s.len();
    proof {
        crate::lemma_tokens_within(s@, 0);
    }
    match parse_attribute(&s, &toks, 0) {
        Ok((v, u)) => if u == toks.len() {
            Some(v)
        } else {
            None
        },
        Err(_) => None,
    }
}

/// Parses the whole of `input` as a comma and an attribute.
pub fn attribute_tail(input: &str) -> (r: Option<Attribute>)
    ensures
        opt_agrees(r, whole(p_attribute_tail(input@, lex(input@, 0), 0), lex(input@, 0).len() as int)),
{
    let s = chars_of(input);
    let toks = tokenize(&s);
    let _ = s.len();
    proof {
        crate::lemma_tokens_within(s@, 0);
    }
    match parse_attribute_tail(&s, &toks, 0) {
        Ok((v, u)) => if u == toks.len() {
            Some(v)
        } else {
            None
        },
        Err(_) => None,
    }
}

/// Parses the whole of `input` as a structure field, with its semicolon.
pub fn structure_field(input: &str) -> (r: Option<StructureField>)
    ensures
        opt_agrees(r, whole(p_struct_field(input@, lex(input@, 0), 0), lex(input@, 0).len() as int)),
{
    let s = chars_of(input);
    let toks = tokenize(&s);
    let _ = s.len();
    proof {
        crate::lemma_tokens_within(s@, 0);
    }
    match parse_struct_field(&s, &toks, 0) {
        Ok((v, u)) => if u == toks.len() {
            Some(v)
        } else {
            None
        },
        Err(_) => None,
    }
}

/// Parses the whole of `input` as a union field, with its semicolon.
pub fn union_field(input: &str) -> (r: Option<UnionField>)
    ensures
        opt_agrees(r, whole(p_union_field(input@, lex(input@, 0), 0), lex(input@, 0).len() as int)),
{
    let s = chars_of(input);
    let toks = tokenize(&s);
    let _ = s.len();
    proof {
        crate::lemma_tokens_within(s@, 0);
    }
    match parse_union_field(&s, &toks, 0) {
        Ok((v, u)) => if u == toks.len() {
            Some(v)
        } else {
            None
        },
        Err(_) => None,
    }
}

/// Parses the whole of `input` as one declaration.
pub fn definition(input: &str) -> (r: Option<Definition>)
    ensures
        opt_agrees(r, whole(p_definition(input@, lex(input@, 0), 0), lex(input@, 0).len() as int)),
{
    let s = chars_of(input);
    let toks = tokenize(&s);
    let _ = s.len();
    proof {
        crate::lemma_tokens_within(s@, 0);
    }
    if toks.len() == 0 {
        return None;
    }
    match parse_definition(&s, &toks, 0) {
        Ok((v, u)) => if u == toks.len() {
            Some(v)
        } else {
            None
        },
        Err(_) => None,
    }
}

} // verus!
