//! The grammar of the next revision of the language, over the same tokens:
//! declarations without terminating semicolons, fields separated by commas,
//! and attributes in brackets before enumerations and fields.
//!
//! Each rule is a spec function from a token index to the value it parses and
//! the index after it, or to the index of the token where it failed; the
//! public functions parse a whole text with one rule.
use vstd::prelude::*;

use crate::lexer::{Token, TokenKind, lex, tokenize};
use crate::meklang::{
    Attribute, BuiltinType, Definition, Enumeration, EnumerationField, Identifier, Module,
    SpecAttribute, SpecDefinition, SpecEnumeration, SpecEnumerationField, SpecStructure,
    SpecStructureField, SpecType, SpecUnion, SpecUnionField, Structure, StructureField, Type, Union,
    UnionField, attributes_view,
};
use crate::parser::{has_kind, is_kind, is_text, kind_at, kind_of, tokens_within, word_at};
use crate::text::{chars_of, string_of};

verus! {

/// The outcome of a rule: a value and the index after it, or the index of
/// the token where it failed.
pub type Parsed<V> = Result<(V, int), int>;

pub open spec fn p_word(s: Seq<char>, toks: Seq<Token>, t: int) -> Parsed<Seq<char>> {
    match word_at(s, toks, t) {
        Some(w) => Ok((w, t + 1)),
        None => Err(t),
    }
}

pub open spec fn p_number(toks: Seq<Token>, t: int) -> Parsed<usize> {
    match kind_at(toks, t) {
        Some(TokenKind::Number(Some(v))) => if v <= usize::MAX {
            Ok((v as usize, t + 1))
        } else {
            Err(t)
        },
        _ => Err(t),
    }
}

pub open spec fn builtin_named(w: Seq<char>) -> Option<BuiltinType> {
    if w == "i8"@ {
        Some(BuiltinType::SignedInteger8)
    } else if w == "i16"@ {
        Some(BuiltinType::SignedInteger16)
    } else if w == "i32"@ {
        Some(BuiltinType::SignedInteger32)
    } else if w == "i64"@ {
        Some(BuiltinType::SignedInteger64)
    } else if w == "u8"@ {
        Some(BuiltinType::UnsignedInteger8)
    } else if w == "u16"@ {
        Some(BuiltinType::UnsignedInteger16)
    } else if w == "u32"@ {
        Some(BuiltinType::UnsignedInteger32)
    } else if w == "u64"@ {
        Some(BuiltinType::UnsignedInteger64)
    } else if w == "f32"@ {
        Some(BuiltinType::Float32)
    } else if w == "f64"@ {
        Some(BuiltinType::Float64)
    } else if w == "bit"@ {
        Some(BuiltinType::Bit)
    } else if w == "bool"@ {
        Some(BuiltinType::Boolean)
    } else if w == "byte"@ {
        Some(BuiltinType::Byte)
    } else {
        None
    }
}

/// A built-in type or a user-defined name.
pub open spec fn p_type(s: Seq<char>, toks: Seq<Token>, t: int) -> Parsed<SpecType> {
    match word_at(s, toks, t) {
        Some(w) => Ok(
            (
                match builtin_named(w) {
                    Some(b) => SpecType::Builtin(b),
                    None => SpecType::UserDefined(w),
                },
                t + 1,
            ),
        ),
        None => Err(t),
    }
}

/// `bits = n`, `bytes = n`, `discriminator = name`, `static_array = n` or
/// `dynamic_array = name`.
pub open spec fn p_attribute(s: Seq<char>, toks: Seq<Token>, t: int) -> Parsed<SpecAttribute> {
    match word_at(s, toks, t) {
        None => Err(t),
        Some(w) => if !is_kind(toks, t + 1, TokenKind::Equal) {
            Err(t + 1)
        } else if w == "bits"@ || w == "bytes"@ || w == "static_array"@ {
            match p_number(toks, t + 2) {
                Err(e) => Err(e),
                Ok((n, u)) => Ok(
                    (
                        if w == "bits"@ {
                            SpecAttribute::Bits(n)
                        } else if w == "bytes"@ {
                            SpecAttribute::Bytes(n)
                        } else {
                            SpecAttribute::StaticArray(n)
                        },
                        u,
                    ),
                ),
            }
        } else if w == "discriminator"@ || w == "dynamic_array"@ {
            match p_word(s, toks, t + 2) {
                Err(e) => Err(e),
                Ok((f, u)) => Ok(
                    (
                        if w == "discriminator"@ {
                            SpecAttribute::Discriminator(f)
                        } else {
                            SpecAttribute::DynamicArray(f)
                        },
                        u,
                    ),
                ),
            }
        } else {
            Err(t)
        },
    }
}

/// Attributes separated by commas, up to and including the closing bracket.
pub open spec fn p_attribute_items(
    s: Seq<char>,
    toks: Seq<Token>,
    t: int,
    acc: Seq<SpecAttribute>,
) -> Parsed<Seq<SpecAttribute>>
    decreases toks.len() - t,
{
    match p_attribute(s, toks, t) {
        Err(e) => Err(e),
        Ok((a, u)) => if is_kind(toks, u, TokenKind::Comma) {
            p_attribute_items(s, toks, u + 1, acc.push(a))
        } else if is_kind(toks, u, TokenKind::RightBracket) {
            Ok((acc.push(a), u + 1))
        } else {
            Err(u)
        },
    }
}

/// `[a, b, ...]`, possibly empty.
pub open spec fn p_attributes(s: Seq<char>, toks: Seq<Token>, t: int) -> Parsed<Seq<SpecAttribute>> {
    if !is_kind(toks, t, TokenKind::LeftBracket) {
        Err(t)
    } else if is_kind(toks, t + 1, TokenKind::RightBracket) {
        Ok((Seq::empty(), t + 2))
    } else {
        p_attribute_items(s, toks, t + 1, Seq::empty())
    }
}

pub open spec fn p_optional_attributes(s: Seq<char>, toks: Seq<Token>, t: int) -> Parsed<
    Seq<SpecAttribute>,
> {
    if is_kind(toks, t, TokenKind::LeftBracket) {
        p_attributes(s, toks, t)
    } else {
        Ok((Seq::empty(), t))
    }
}

/// `name = value` or `name = from..to`.
pub open spec fn p_enumeration_field(s: Seq<char>, toks: Seq<Token>, t: int) -> Parsed<
    SpecEnumerationField,
> {
    match p_word(s, toks, t) {
        Err(e) => Err(e),
        Ok((name, _)) => if !is_kind(toks, t + 1, TokenKind::Equal) {
            Err(t + 1)
        } else {
            match p_number(toks, t + 2) {
                Err(e) => Err(e),
                Ok((from, _)) => if is_kind(toks, t + 3, TokenKind::DoubleDot) {
                    match p_number(toks, t + 4) {
                        Err(e) => Err(e),
                        Ok((to, u)) => Ok((SpecEnumerationField::RangeOfValues(name, from, to), u)),
                    }
                } else {
                    Ok((SpecEnumerationField::SingleValue(name, from), t + 3))
                },
            }
        },
    }
}

pub open spec fn p_enumeration_items(
    s: Seq<char>,
    toks: Seq<Token>,
    t: int,
    acc: Seq<SpecEnumerationField>,
) -> Parsed<Seq<SpecEnumerationField>>
    decreases toks.len() - t,
{
    match p_enumeration_field(s, toks, t) {
        Err(e) => Err(e),
        Ok((f, u)) => if is_kind(toks, u, TokenKind::Comma) {
            p_enumeration_items(s, toks, u + 1, acc.push(f))
        } else if is_kind(toks, u, TokenKind::RightBrace) {
            Ok((acc.push(f), u + 1))
        } else {
            Err(u)
        },
    }
}

/// `{ fields }` with the fields separated by commas.
pub open spec fn p_enumeration_body(s: Seq<char>, toks: Seq<Token>, t: int) -> Parsed<
    Seq<SpecEnumerationField>,
> {
    if !is_kind(toks, t, TokenKind::LeftBrace) {
        Err(t)
    } else if is_kind(toks, t + 1, TokenKind::RightBrace) {
        Ok((Seq::empty(), t + 2))
    } else {
        p_enumeration_items(s, toks, t + 1, Seq::empty())
    }
}

/// `[attributes] enum name { fields }`, the attributes optional.
pub open spec fn p_enumeration(s: Seq<char>, toks: Seq<Token>, t: int) -> Parsed<SpecEnumeration> {
    match p_optional_attributes(s, toks, t) {
        Err(e) => Err(e),
        Ok((attributes, u)) => if word_at(s, toks, u) != Some("enum"@) {
            Err(u)
        } else {
            match p_word(s, toks, u + 1) {
                Err(e) => Err(e),
                Ok((name, _)) => match p_enumeration_body(s, toks, u + 2) {
                    Err(e) => Err(e),
                    Ok((fields, v)) => Ok((SpecEnumeration { name, fields, attributes }, v)),
                },
            }
        },
    }
}

/// `[attributes] name: type`, the attributes optional.
pub open spec fn p_structure_field(s: Seq<char>, toks: Seq<Token>, t: int) -> Parsed<
    SpecStructureField,
> {
    match p_optional_attributes(s, toks, t) {
        Err(e) => Err(e),
        Ok((attributes, u)) => match p_word(s, toks, u) {
            Err(e) => Err(e),
            Ok((name, _)) => if !is_kind(toks, u + 1, TokenKind::Colon) {
                Err(u + 1)
            } else {
                match p_type(s, toks, u + 2) {
                    Err(e) => Err(e),
                    Ok((typ, v)) => Ok((SpecStructureField { name, typ, attributes }, v)),
                }
            },
        },
    }
}

pub open spec fn p_structure_items(
    s: Seq<char>,
    toks: Seq<Token>,
    t: int,
    acc: Seq<SpecStructureField>,
) -> Parsed<Seq<SpecStructureField>>
    decreases toks.len() - t via p_structure_items_decreases
{
    match p_structure_field(s, toks, t) {
        Err(e) => Err(e),
        Ok((f, u)) => if is_kind(toks, u, TokenKind::Comma) {
            p_structure_items(s, toks, u + 1, acc.push(f))
        } else if is_kind(toks, u, TokenKind::RightBrace) {
            Ok((acc.push(f), u + 1))
        } else {
            Err(u)
        },
    }
}

/// `struct name { fields }`.
pub open spec fn p_structure(s: Seq<char>, toks: Seq<Token>, t: int) -> Parsed<SpecStructure> {
    if word_at(s, toks, t) != Some("struct"@) {
        Err(t)
    } else {
        match p_word(s, toks, t + 1) {
            Err(e) => Err(e),
            Ok((name, _)) => if !is_kind(toks, t + 2, TokenKind::LeftBrace) {
                Err(t + 2)
            } else if is_kind(toks, t + 3, TokenKind::RightBrace) {
                Ok((SpecStructure { name, fields: Seq::empty() }, t + 4))
            } else {
                match p_structure_items(s, toks, t + 3, Seq::empty()) {
                    Err(e) => Err(e),
                    Ok((fields, v)) => Ok((SpecStructure { name, fields }, v)),
                }
            },
        }
    }
}

/// `name: type` after the arrow of a union field.
pub open spec fn p_member(s: Seq<char>, toks: Seq<Token>, t: int) -> Parsed<(Seq<char>, SpecType)> {
    match p_word(s, toks, t) {
        Err(e) => Err(e),
        Ok((name, _)) => if !is_kind(toks, t + 1, TokenKind::Colon) {
            Err(t + 1)
        } else {
            match p_type(s, toks, t + 2) {
                Err(e) => Err(e),
                Ok((typ, v)) => Ok(((name, typ), v)),
            }
        },
    }
}

/// `[attributes] value => name: type` or `[attributes] from..to => name: type`.
pub open spec fn p_union_field(s: Seq<char>, toks: Seq<Token>, t: int) -> Parsed<SpecUnionField> {
    match p_optional_attributes(s, toks, t) {
        Err(e) => Err(e),
        Ok((attributes, u)) => match p_number(toks, u) {
            Err(e) => Err(e),
            Ok((from, _)) => if is_kind(toks, u + 1, TokenKind::DoubleDot) {
                match p_number(toks, u + 2) {
                    Err(e) => Err(e),
                    Ok((to, _)) => if !is_kind(toks, u + 3, TokenKind::MapsTo) {
                        Err(u + 3)
                    } else {
                        match p_member(s, toks, u + 4) {
                            Err(e) => Err(e),
                            Ok(((name, typ), v)) => Ok(
                                (SpecUnionField::RangeOfValues(name, typ, from, to, attributes), v),
                            ),
                        }
                    },
                }
            } else if is_kind(toks, u + 1, TokenKind::MapsTo) {
                match p_member(s, toks, u + 2) {
                    Err(e) => Err(e),
                    Ok(((name, typ), v)) => Ok(
                        (SpecUnionField::SingleValue(name, typ, from, attributes), v),
                    ),
                }
            } else {
                Err(u + 1)
            },
        },
    }
}

pub open spec fn p_union_items(
    s: Seq<char>,
    toks: Seq<Token>,
    t: int,
    acc: Seq<SpecUnionField>,
) -> Parsed<Seq<SpecUnionField>>
    decreases toks.len() - t via p_union_items_decreases
{
    match p_union_field(s, toks, t) {
        Err(e) => Err(e),
        Ok((f, u)) => if is_kind(toks, u, TokenKind::Comma) {
            p_union_items(s, toks, u + 1, acc.push(f))
        } else if is_kind(toks, u, TokenKind::RightBrace) {
            Ok((acc.push(f), u + 1))
        } else {
            Err(u)
        },
    }
}

/// `union name { fields }`.
pub open spec fn p_union(s: Seq<char>, toks: Seq<Token>, t: int) -> Parsed<SpecUnion> {
    if word_at(s, toks, t) != Some("union"@) {
        Err(t)
    } else {
        match p_word(s, toks, t + 1) {
            Err(e) => Err(e),
            Ok((name, _)) => if !is_kind(toks, t + 2, TokenKind::LeftBrace) {
                Err(t + 2)
            } else if is_kind(toks, t + 3, TokenKind::RightBrace) {
                Ok((SpecUnion { name, fields: Seq::empty() }, t + 4))
            } else {
                match p_union_items(s, toks, t + 3, Seq::empty()) {
                    Err(e) => Err(e),
                    Ok((fields, v)) => Ok((SpecUnion { name, fields }, v)),
                }
            },
        }
    }
}

/// An enumeration, a structure or a union.
pub open spec fn p_definition(s: Seq<char>, toks: Seq<Token>, t: int) -> Parsed<SpecDefinition> {
    if is_kind(toks, t, TokenKind::LeftBracket) || word_at(s, toks, t) == Some("enum"@) {
        match p_enumeration(s, toks, t) {
            Err(e) => Err(e),
            Ok((d, u)) => Ok((SpecDefinition::Enumeration(d), u)),
        }
    } else if word_at(s, toks, t) == Some("struct"@) {
        match p_structure(s, toks, t) {
            Err(e) => Err(e),
            Ok((d, u)) => Ok((SpecDefinition::Structure(d), u)),
        }
    } else if word_at(s, toks, t) == Some("union"@) {
        match p_union(s, toks, t) {
            Err(e) => Err(e),
            Ok((d, u)) => Ok((SpecDefinition::Union(d), u)),
        }
    } else {
        Err(t)
    }
}

/// Definitions up to the end of the tokens.
pub open spec fn p_module(
    s: Seq<char>,
    toks: Seq<Token>,
    t: int,
    acc: Seq<SpecDefinition>,
) -> Parsed<Seq<SpecDefinition>>
    decreases toks.len() - t via p_module_decreases
{
    if t >= toks.len() {
        Ok((acc, t))
    } else {
        match p_definition(s, toks, t) {
            Err(e) => Err(e),
            Ok((d, u)) => p_module(s, toks, u, acc.push(d)),
        }
    }
}

proof fn lemma_attribute_items_advance(
    s: Seq<char>,
    toks: Seq<Token>,
    t: int,
    acc: Seq<SpecAttribute>,
)
    ensures
        p_attribute_items(s, toks, t, acc) matches Ok((_, u)) ==> t < u <= toks.len(),
    decreases toks.len() - t,
{
    if let Ok((a, u)) = p_attribute(s, toks, t) {
        if is_kind(toks, u, TokenKind::Comma) {
            lemma_attribute_items_advance(s, toks, u + 1, acc.push(a));
        }
    }
}

proof fn lemma_optional_attributes_advance(s: Seq<char>, toks: Seq<Token>, t: int)
    ensures
        p_optional_attributes(s, toks, t) matches Ok((_, u)) ==> u == t || t < u <= toks.len(),
{
    lemma_attribute_items_advance(s, toks, t + 1, Seq::empty());
}

proof fn lemma_enumeration_items_advance(
    s: Seq<char>,
    toks: Seq<Token>,
    t: int,
    acc: Seq<SpecEnumerationField>,
)
    ensures
        p_enumeration_items(s, toks, t, acc) matches Ok((_, u)) ==> t < u <= toks.len(),
    decreases toks.len() - t,
{
    if let Ok((f, u)) = p_enumeration_field(s, toks, t) {
        if is_kind(toks, u, TokenKind::Comma) {
            lemma_enumeration_items_advance(s, toks, u + 1, acc.push(f));
        }
    }
}

proof fn lemma_structure_items_advance(
    s: Seq<char>,
    toks: Seq<Token>,
    t: int,
    acc: Seq<SpecStructureField>,
)
    ensures
        p_structure_items(s, toks, t, acc) matches Ok((_, u)) ==> t < u <= toks.len(),
    decreases toks.len() - t,
{
    lemma_optional_attributes_advance(s, toks, t);
    if let Ok((f, u)) = p_structure_field(s, toks, t) {
        if is_kind(toks, u, TokenKind::Comma) {
            lemma_structure_items_advance(s, toks, u + 1, acc.push(f));
        }
    }
}

proof fn lemma_union_items_advance(
    s: Seq<char>,
    toks: Seq<Token>,
    t: int,
    acc: Seq<SpecUnionField>,
)
    ensures
        p_union_items(s, toks, t, acc) matches Ok((_, u)) ==> t < u <= toks.len(),
    decreases toks.len() - t,
{
    lemma_optional_attributes_advance(s, toks, t);
    if let Ok((f, u)) = p_union_field(s, toks, t) {
        if is_kind(toks, u, TokenKind::Comma) {
            lemma_union_items_advance(s, toks, u + 1, acc.push(f));
        }
    }
}

proof fn lemma_definition_advance(s: Seq<char>, toks: Seq<Token>, t: int)
    ensures
        p_definition(s, toks, t) matches Ok((_, u)) ==> t < u <= toks.len(),
{
    lemma_optional_attributes_advance(s, toks, t);
    if let Ok((_, u)) = p_optional_attributes(s, toks, t) {
        lemma_enumeration_items_advance(s, toks, u + 3, Seq::empty());
    }
    lemma_structure_items_advance(s, toks, t + 3, Seq::empty());
    lemma_union_items_advance(s, toks, t + 3, Seq::empty());
}

#[via_fn]
proof fn p_structure_items_decreases(
    s: Seq<char>,
    toks: Seq<Token>,
    t: int,
    acc: Seq<SpecStructureField>,
) {
    lemma_optional_attributes_advance(s, toks, t);
}

#[via_fn]
proof fn p_union_items_decreases(
    s: Seq<char>,
    toks: Seq<Token>,
    t: int,
    acc: Seq<SpecUnionField>,
) {
    lemma_optional_attributes_advance(s, toks, t);
}

#[via_fn]
proof fn p_module_decreases(s: Seq<char>, toks: Seq<Token>, t: int, acc: Seq<SpecDefinition>) {
    lemma_definition_advance(s, toks, t);
}

/// The executable outcome of a rule agrees with the rule.
pub open spec fn agrees<V: View>(r: Result<(V, usize), usize>, p: Parsed<V::V>) -> bool {
    match r {
        Ok((v, u)) => p == Ok::<(V::V, int), int>((v@, u as int)),
        Err(u) => p == Err::<(V::V, int), int>(u as int),
    }
}

fn m_word(s: &Vec<char>, toks: &Vec<Token>, t: usize) -> (r: Result<(Identifier, usize), usize>)
    requires
        t <= toks@.len(),
        tokens_within(s@, toks@),
    ensures
        agrees(r, p_word(s@, toks@, t as int)),
        r matches Ok((_, u)) ==> u <= toks@.len(),
{
    if has_kind(toks, t, TokenKind::Word) {
        Ok((Identifier { name: string_of(s, toks[t].start, toks[t].end) }, t + 1))
    } else {
        Err(t)
    }
}

fn m_number(toks: &Vec<Token>, t: usize) -> (r: Result<(usize, usize), usize>)
    requires
        t <= toks@.len(),
    ensures
        agrees(r, p_number(toks@, t as int)),
        r matches Ok((_, u)) ==> u <= toks@.len(),
{
    let kind = kind_of(toks, t);
    match kind {
        Some(TokenKind::Number(Some(v))) => if v <= usize::MAX as u64 {
            Ok((v as usize, t + 1))
        } else {
            Err(t)
        },
        _ => Err(t),
    }
}

fn m_builtin_of(w: &String) -> (r: Option<BuiltinType>)
    ensures
        r == builtin_named(w@),
{
    if is_text(w, "i8") {
        Some(BuiltinType::SignedInteger8)
    } else if is_text(w, "i16") {
        Some(BuiltinType::SignedInteger16)
    } else if is_text(w, "i32") {
        Some(BuiltinType::SignedInteger32)
    } else if is_text(w, "i64") {
        Some(BuiltinType::SignedInteger64)
    } else if is_text(w, "u8") {
        Some(BuiltinType::UnsignedInteger8)
    } else if is_text(w, "u16") {
        Some(BuiltinType::UnsignedInteger16)
    } else if is_text(w, "u32") {
        Some(BuiltinType::UnsignedInteger32)
    } else if is_text(w, "u64") {
        Some(BuiltinType::UnsignedInteger64)
    } else if is_text(w, "f32") {
        Some(BuiltinType::Float32)
    } else if is_text(w, "f64") {
        Some(BuiltinType::Float64)
    } else if is_text(w, "bit") {
        Some(BuiltinType::Bit)
    } else if is_text(w, "bool") {
        Some(BuiltinType::Boolean)
    } else if is_text(w, "byte") {
        Some(BuiltinType::Byte)
    } else {
        None
    }
}

fn m_type(s: &Vec<char>, toks: &Vec<Token>, t: usize) -> (r: Result<(Type, usize), usize>)
    requires
        t <= toks@.len(),
        tokens_within(s@, toks@),
    ensures
        agrees(r, p_type(s@, toks@, t as int)),
        r matches Ok((_, u)) ==> u <= toks@.len(),
{
    match m_word(s, toks, t) {
        Ok((w, u)) => match m_builtin_of(&w.name) {
            Some(b) => Ok((Type::Builtin(b), u)),
            None => Ok((Type::UserDefined(w), u)),
        },
        Err(e) => Err(e),
    }
}

fn m_attribute(s: &Vec<char>, toks: &Vec<Token>, t: usize) -> (r: Result<(Attribute, usize), usize>)
    requires
        t <= toks@.len(),
        tokens_within(s@, toks@),
    ensures
        agrees(r, p_attribute(s@, toks@, t as int)),
        r matches Ok((_, u)) ==> u <= toks@.len(),
{
    let w = match m_word(s, toks, t) {
        Ok((w, _)) => w,
        Err(e) => {
            return Err(e);
        },
    };
    if !has_kind(toks, t + 1, TokenKind::Equal) {
        return Err(t + 1);
    }
    if is_text(&w.name, "bits") || is_text(&w.name, "bytes") || is_text(&w.name, "static_array") {
        match m_number(toks, t + 2) {
            Ok((n, u)) => if is_text(&w.name, "bits") {
                Ok((Attribute::Bits(n), u))
            } else if is_text(&w.name, "bytes") {
                Ok((Attribute::Bytes(n), u))
            } else {
                Ok((Attribute::StaticArray(n), u))
            },
            Err(e) => Err(e),
        }
    } else if is_text(&w.name, "discriminator") || is_text(&w.name, "dynamic_array") {
        match m_word(s, toks, t + 2) {
            Ok((f, u)) => if is_text(&w.name, "discriminator") {
                Ok((Attribute::Discriminator(f), u))
            } else {
                Ok((Attribute::DynamicArray(f), u))
            },
            Err(e) => Err(e),
        }
    } else {
        Err(t)
    }
}

/// The bracketed attribute list at `t`.
fn m_attributes(s: &Vec<char>, toks: &Vec<Token>, t: usize) -> (r: Result<
    (Vec<Attribute>, usize),
    usize,
>)
    requires
        t <= toks@.len(),
        tokens_within(s@, toks@),
    ensures
        match r {
            Ok((v, u)) => p_attributes(s@, toks@, t as int) == Ok::<(Seq<SpecAttribute>, int), int>(
                (attributes_view(v@), u as int),
            ) && u <= toks@.len(),
            Err(u) => p_attributes(s@, toks@, t as int) == Err::<(Seq<SpecAttribute>, int), int>(
                u as int,
            ),
        },
{
    let mut attributes: Vec<Attribute> = Vec::new();
    assert(attributes_view(attributes@) =~= Seq::<SpecAttribute>::empty());
    if !has_kind(toks, t, TokenKind::LeftBracket) {
        return Err(t);
    }
    if has_kind(toks, t + 1, TokenKind::RightBracket) {
        return Ok((attributes, t + 2));
    }
    let mut u: usize = t + 1;
    loop
        invariant
            u <= toks@.len(),
            tokens_within(s@, toks@),
            is_kind(toks@, t as int, TokenKind::LeftBracket),
            !is_kind(toks@, t + 1, TokenKind::RightBracket),
            p_attribute_items(s@, toks@, t + 1, Seq::empty()) == p_attribute_items(
                s@,
                toks@,
                u as int,
                attributes_view(attributes@),
            ),
        decreases toks@.len() - u,
    {
        let ghost acc = attributes_view(attributes@);
        let (a, v) = match m_attribute(s, toks, u) {
            Ok(x) => x,
            Err(e) => {
                return Err(e);
            },
        };
        attributes.push(a);
        assert(attributes_view(attributes@) =~= acc.push(a@));
        if has_kind(toks, v, TokenKind::Comma) {
            u = v + 1;
        } else if has_kind(toks, v, TokenKind::RightBracket) {
            return Ok((attributes, v + 1));
        } else {
            return Err(v);
        }
    }
}

fn m_optional_attributes(s: &Vec<char>, toks: &Vec<Token>, t: usize) -> (r: Result<
    (Vec<Attribute>, usize),
    usize,
>)
    requires
        t <= toks@.len(),
        tokens_within(s@, toks@),
    ensures
        match r {
            Ok((v, u)) => p_optional_attributes(s@, toks@, t as int) == Ok::<
                (Seq<SpecAttribute>, int),
                int,
            >((attributes_view(v@), u as int)) && t <= u <= toks@.len(),
            Err(u) => p_optional_attributes(s@, toks@, t as int) == Err::<
                (Seq<SpecAttribute>, int),
                int,
            >(u as int),
        },
{
    proof {
        lemma_optional_attributes_advance(s@, toks@, t as int);
    }
    if has_kind(toks, t, TokenKind::LeftBracket) {
        m_attributes(s, toks, t)
    } else {
        let v: Vec<Attribute> = Vec::new();
        assert(attributes_view(v@) =~= Seq::<SpecAttribute>::empty());
        Ok((v, t))
    }
}

fn m_enumeration_field(s: &Vec<char>, toks: &Vec<Token>, t: usize) -> (r: Result<
    (EnumerationField, usize),
    usize,
>)
    requires
        t <= toks@.len(),
        tokens_within(s@, toks@),
    ensures
        agrees(r, p_enumeration_field(s@, toks@, t as int)),
        r matches Ok((_, u)) ==> t < u <= toks@.len(),
{
    let name = match m_word(s, toks, t) {
        Ok((w, _)) => w,
        Err(e) => {
            return Err(e);
        },
    };
    if !has_kind(toks, t + 1, TokenKind::Equal) {
        return Err(t + 1);
    }
    let from = match m_number(toks, t + 2) {
        Ok((n, _)) => n,
        Err(e) => {
            return Err(e);
        },
    };
    if has_kind(toks, t + 3, TokenKind::DoubleDot) {
        match m_number(toks, t + 4) {
            Ok((to, u)) => Ok((EnumerationField::RangeOfValues { name, from, to }, u)),
            Err(e) => Err(e),
        }
    } else {
        Ok((EnumerationField::SingleValue { name, value: from }, t + 3))
    }
}

fn m_enumeration(s: &Vec<char>, toks: &Vec<Token>, t: usize) -> (r: Result<
    (Enumeration, usize),
    usize,
>)
    requires
        t <= toks@.len(),
        tokens_within(s@, toks@),
    ensures
        agrees(r, p_enumeration(s@, toks@, t as int)),
        r matches Ok((_, u)) ==> u <= toks@.len(),
{
    let (attributes, a) = match m_optional_attributes(s, toks, t) {
        Ok(x) => x,
        Err(e) => {
            return Err(e);
        },
    };
    match m_word(s, toks, a) {
        Ok((w, _)) => if !is_text(&w.name, "enum") {
            return Err(a);
        },
        Err(_) => {
            return Err(a);
        },
    }
    let name = match m_word(s, toks, a + 1) {
        Ok((w, _)) => w,
        Err(e) => {
            return Err(e);
        },
    };
    let mut fields: Vec<EnumerationField> = Vec::new();
    assert(fields@.map_values(|f: EnumerationField| f@) =~= Seq::<SpecEnumerationField>::empty());
    if !has_kind(toks, a + 2, TokenKind::LeftBrace) {
        return Err(a + 2);
    }
    if has_kind(toks, a + 3, TokenKind::RightBrace) {
        return Ok((Enumeration { name, fields, attributes }, a + 4));
    }
    let mut u: usize = a + 3;
    loop
        invariant
            u <= toks@.len(),
            tokens_within(s@, toks@),
            p_optional_attributes(s@, toks@, t as int) == Ok::<(Seq<SpecAttribute>, int), int>(
                (attributes_view(attributes@), a as int),
            ),
            word_at(s@, toks@, a as int) == Some("enum"@),
            p_word(s@, toks@, a + 1) == Ok::<(Seq<char>, int), int>((name@, a + 2)),
            is_kind(toks@, a + 2, TokenKind::LeftBrace),
            !is_kind(toks@, a + 3, TokenKind::RightBrace),
            p_enumeration_items(s@, toks@, a + 3, Seq::empty()) == p_enumeration_items(
                s@,
                toks@,
                u as int,
                fields@.map_values(|f: EnumerationField| f@),
            ),
        decreases toks@.len() - u,
    {
        let ghost acc = fields@.map_values(|f: EnumerationField| f@);
        let (f, v) = match m_enumeration_field(s, toks, u) {
            Ok(x) => x,
            Err(e) => {
                return Err(e);
            },
        };
        fields.push(f);
        assert(fields@.map_values(|f: EnumerationField| f@) =~= acc.push(f@));
        if has_kind(toks, v, TokenKind::Comma) {
            u = v + 1;
        } else if has_kind(toks, v, TokenKind::RightBrace) {
            return Ok((Enumeration { name, fields, attributes }, v + 1));
        } else {
            return Err(v);
        }
    }
}

fn m_structure_field(s: &Vec<char>, toks: &Vec<Token>, t: usize) -> (r: Result<
    (StructureField, usize),
    usize,
>)
    requires
        t <= toks@.len(),
        tokens_within(s@, toks@),
    ensures
        agrees(r, p_structure_field(s@, toks@, t as int)),
        r matches Ok((_, u)) ==> t < u <= toks@.len(),
{
    let (attributes, a) = match m_optional_attributes(s, toks, t) {
        Ok(x) => x,
        Err(e) => {
            return Err(e);
        },
    };
    let name = match m_word(s, toks, a) {
        Ok((w, _)) => w,
        Err(e) => {
            return Err(e);
        },
    };
    if !has_kind(toks, a + 1, TokenKind::Colon) {
        return Err(a + 1);
    }
    match m_type(s, toks, a + 2) {
        Ok((typ, u)) => Ok((StructureField { name, typ, attributes }, u)),
        Err(e) => Err(e),
    }
}

fn m_structure(s: &Vec<char>, toks: &Vec<Token>, t: usize) -> (r: Result<(Structure, usize), usize>)
    requires
        t <= toks@.len(),
        tokens_within(s@, toks@),
    ensures
        agrees(r, p_structure(s@, toks@, t as int)),
        r matches Ok((_, u)) ==> u <= toks@.len(),
{
    match m_word(s, toks, t) {
        Ok((w, _)) => if !is_text(&w.name, "struct") {
            return Err(t);
        },
        Err(_) => {
            return Err(t);
        },
    }
    let name = match m_word(s, toks, t + 1) {
        Ok((w, _)) => w,
        Err(e) => {
            return Err(e);
        },
    };
    let mut fields: Vec<StructureField> = Vec::new();
    assert(fields@.map_values(|f: StructureField| f@) =~= Seq::<SpecStructureField>::empty());
    if !has_kind(toks, t + 2, TokenKind::LeftBrace) {
        return Err(t + 2);
    }
    if has_kind(toks, t + 3, TokenKind::RightBrace) {
        return Ok((Structure { name, fields }, t + 4));
    }
    let mut u: usize = t + 3;
    loop
        invariant
            u <= toks@.len(),
            tokens_within(s@, toks@),
            word_at(s@, toks@, t as int) == Some("struct"@),
            p_word(s@, toks@, t + 1) == Ok::<(Seq<char>, int), int>((name@, t + 2)),
            is_kind(toks@, t + 2, TokenKind::LeftBrace),
            !is_kind(toks@, t + 3, TokenKind::RightBrace),
            p_structure_items(s@, toks@, t + 3, Seq::empty()) == p_structure_items(
                s@,
                toks@,
                u as int,
                fields@.map_values(|f: StructureField| f@),
            ),
        decreases toks@.len() - u,
    {
        let ghost acc = fields@.map_values(|f: StructureField| f@);
        let (f, v) = match m_structure_field(s, toks, u) {
            Ok(x) => x,
            Err(e) => {
                return Err(e);
            },
        };
        fields.push(f);
        assert(fields@.map_values(|f: StructureField| f@) =~= acc.push(f@));
        if has_kind(toks, v, TokenKind::Comma) {
            u = v + 1;
        } else if has_kind(toks, v, TokenKind::RightBrace) {
            return Ok((Structure { name, fields }, v + 1));
        } else {
            return Err(v);
        }
    }
}

fn m_member(s: &Vec<char>, toks: &Vec<Token>, t: usize) -> (r: Result<
    (Identifier, Type, usize),
    usize,
>)
    requires
        t <= toks@.len(),
        tokens_within(s@, toks@),
    ensures
        match r {
            Ok((name, typ, u)) => p_member(s@, toks@, t as int) == Ok::<
                ((Seq<char>, SpecType), int),
                int,
            >(((name@, typ@), u as int)) && t < u <= toks@.len(),
            Err(u) => p_member(s@, toks@, t as int) == Err::<((Seq<char>, SpecType), int), int>(
                u as int,
            ),
        },
{
    let name = match m_word(s, toks, t) {
        Ok((w, _)) => w,
        Err(e) => {
            return Err(e);
        },
    };
    if !has_kind(toks, t + 1, TokenKind::Colon) {
        return Err(t + 1);
    }
    match m_type(s, toks, t + 2) {
        Ok((typ, u)) => Ok((name, typ, u)),
        Err(e) => Err(e),
    }
}

fn m_union_field(s: &Vec<char>, toks: &Vec<Token>, t: usize) -> (r: Result<(UnionField, usize), usize>)
    requires
        t <= toks@.len(),
        tokens_within(s@, toks@),
    ensures
        agrees(r, p_union_field(s@, toks@, t as int)),
        r matches Ok((_, u)) ==> t < u <= toks@.len(),
{
    let (attributes, a) = match m_optional_attributes(s, toks, t) {
        Ok(x) => x,
        Err(e) => {
            return Err(e);
        },
    };
    let from = match m_number(toks, a) {
        Ok((n, _)) => n,
        Err(e) => {
            return Err(e);
        },
    };
    if has_kind(toks, a + 1, TokenKind::DoubleDot) {
        let to = match m_number(toks, a + 2) {
            Ok((n, _)) => n,
            Err(e) => {
                return Err(e);
            },
        };
        if !has_kind(toks, a + 3, TokenKind::MapsTo) {
            return Err(a + 3);
        }
        match m_member(s, toks, a + 4) {
            Ok((name, typ, u)) => Ok(
                (
                    UnionField::RangeOfValues {
                        name,
                        typ,
                        discriminator_from: from,
                        discriminator_to: to,
                        attributes,
                    },
                    u,
                ),
            ),
            Err(e) => Err(e),
        }
    } else if has_kind(toks, a + 1, TokenKind::MapsTo) {
        match m_member(s, toks, a + 2) {
            Ok((name, typ, u)) => Ok(
                (UnionField::SingleValue { name, typ, discriminator: from, attributes }, u),
            ),
            Err(e) => Err(e),
        }
    } else {
        Err(a + 1)
    }
}

fn m_union(s: &Vec<char>, toks: &Vec<Token>, t: usize) -> (r: Result<(Union, usize), usize>)
    requires
        t <= toks@.len(),
        tokens_within(s@, toks@),
    ensures
        agrees(r, p_union(s@, toks@, t as int)),
        r matches Ok((_, u)) ==> u <= toks@.len(),
{
    match m_word(s, toks, t) {
        Ok((w, _)) => if !is_text(&w.name, "union") {
            return Err(t);
        },
        Err(_) => {
            return Err(t);
        },
    }
    let name = match m_word(s, toks, t + 1) {
        Ok((w, _)) => w,
        Err(e) => {
            return Err(e);
        },
    };
    let mut fields: Vec<UnionField> = Vec::new();
    assert(fields@.map_values(|f: UnionField| f@) =~= Seq::<SpecUnionField>::empty());
    if !has_kind(toks, t + 2, TokenKind::LeftBrace) {
        return Err(t + 2);
    }
    if has_kind(toks, t + 3, TokenKind::RightBrace) {
        return Ok((Union { name, fields }, t + 4));
    }
    let mut u: usize = t + 3;
    loop
        invariant
            u <= toks@.len(),
            tokens_within(s@, toks@),
            word_at(s@, toks@, t as int) == Some("union"@),
            p_word(s@, toks@, t + 1) == Ok::<(Seq<char>, int), int>((name@, t + 2)),
            is_kind(toks@, t + 2, TokenKind::LeftBrace),
            !is_kind(toks@, t + 3, TokenKind::RightBrace),
            p_union_items(s@, toks@, t + 3, Seq::empty()) == p_union_items(
                s@,
                toks@,
                u as int,
                fields@.map_values(|f: UnionField| f@),
            ),
        decreases toks@.len() - u,
    {
        let ghost acc = fields@.map_values(|f: UnionField| f@);
        let (f, v) = match m_union_field(s, toks, u) {
            Ok(x) => x,
            Err(e) => {
                return Err(e);
            },
        };
        fields.push(f);
        assert(fields@.map_values(|f: UnionField| f@) =~= acc.push(f@));
        if has_kind(toks, v, TokenKind::Comma) {
            u = v + 1;
        } else if has_kind(toks, v, TokenKind::RightBrace) {
            return Ok((Union { name, fields }, v + 1));
        } else {
            return Err(v);
        }
    }
}

fn m_definition(s: &Vec<char>, toks: &Vec<Token>, t: usize) -> (r: Result<(Definition, usize), usize>)
    requires
        t <= toks@.len(),
        tokens_within(s@, toks@),
    ensures
        agrees(r, p_definition(s@, toks@, t as int)),
        r matches Ok((_, u)) ==> u <= toks@.len(),
{
    let keyword = match m_word(s, toks, t) {
        Ok((w, _)) => Some(w),
        Err(_) => None,
    };
    let is_enum = match &keyword {
        Some(w) => is_text(&w.name, "enum"),
        None => false,
    };
    if has_kind(toks, t, TokenKind::LeftBracket) || is_enum {
        return match m_enumeration(s, toks, t) {
            Ok((d, u)) => Ok((Definition::Enumeration(d), u)),
            Err(e) => Err(e),
        };
    }
    let is_struct = match &keyword {
        Some(w) => is_text(&w.name, "struct"),
        None => false,
    };
    if is_struct {
        return match m_structure(s, toks, t) {
            Ok((d, u)) => Ok((Definition::Structure(d), u)),
            Err(e) => Err(e),
        };
    }
    let is_union = match &keyword {
        Some(w) => is_text(&w.name, "union"),
        None => false,
    };
    if is_union {
        return match m_union(s, toks, t) {
            Ok((d, u)) => Ok((Definition::Union(d), u)),
            Err(e) => Err(e),
        };
    }
    Err(t)
}

fn m_module(s: &Vec<char>, toks: &Vec<Token>) -> (r: Result<Module, usize>)
    requires
        tokens_within(s@, toks@),
    ensures
        match r {
            Ok(m) => p_module(s@, toks@, 0, Seq::empty()) matches Ok((ds, _)) && ds == m@,
            Err(u) => p_module(s@, toks@, 0, Seq::empty()) == Err::<(Seq<SpecDefinition>, int), int>(
                u as int,
            ),
        },
{
    let mut definitions: Vec<Definition> = Vec::new();
    let mut t: usize = 0;
    assert(definitions@.map_values(|d: Definition| d@) =~= Seq::<SpecDefinition>::empty());
    while t < toks.len()
        invariant
            t <= toks@.len(),
            tokens_within(s@, toks@),
            p_module(s@, toks@, 0, Seq::empty()) == p_module(
                s@,
                toks@,
                t as int,
                definitions@.map_values(|d: Definition| d@),
            ),
        decreases toks@.len() - t,
    {
        let ghost acc = definitions@.map_values(|d: Definition| d@);
        match m_definition(s, toks, t) {
            Ok((d, next)) => {
                proof {
                    lemma_definition_advance(s@, toks@, t as int);
                }
                definitions.push(d);
                assert(definitions@.map_values(|d: Definition| d@) =~= acc.push(d@));
                t = next;
            },
            Err(e) => {
                return Err(e);
            },
        }
    }
    Ok(Module { definitions })
}

/// The value of a rule that spans all `n` tokens.
pub open spec fn whole<V>(p: Parsed<V>, n: int) -> Option<V> {
    match p {
        Ok((v, u)) => if u == n {
            Some(v)
        } else {
            None
        },
        Err(_) => None,
    }
}

pub open spec fn opt_agrees<V: View>(r: Option<V>, w: Option<V::V>) -> bool {
    match r {
        Some(v) => w == Some(v@),
        None => w is None,
    }
}

/// Parses the whole of `input` as an identifier.
pub fn identifier(input: &str) -> (r: Option<Identifier>)
    ensures
        opt_agrees(r, whole(p_word(input@, lex(input@, 0), 0), lex(input@, 0).len() as int)),
{
    let s = chars_of(input);
    let toks = tokenize(&s);
    let _ = s.len();
    proof {
        crate::lemma_tokens_within(s@, 0);
    }
    match m_word(&s, &toks, 0) {
        Ok((v, u)) => if u == toks.len() {
            Some(v)
        } else {
            None
        },
        Err(_) => None,
    }
}

/// Parses the whole of `input` as an unsigned integer.
pub fn number(input: &str) -> (r: Option<usize>)
    ensures
        opt_agrees(r, whole(p_number(lex(input@, 0), 0), lex(input@, 0).len() as int)),
{
    let s = chars_of(input);
    let toks = tokenize(&s);
    let _ = s.len();
    proof {
        crate::lemma_tokens_within(s@, 0);
    }
    match m_number(&toks, 0) {
        Ok((v, u)) => if u == toks.len() {
            Some(v)
        } else {
            None
        },
        Err(_) => None,
    }
}

/// Parses the whole of `input` as a type.
pub fn any_type(input: &str) -> (r: Option<Type>)
    ensures
        opt_agrees(r, whole(p_type(input@, lex(input@, 0), 0), lex(input@, 0).len() as int)),
{
    let s = chars_of(input);
    let toks = tokenize(&s);
    let _ = s.len();
    proof {
        crate::lemma_tokens_within(s@, 0);
    }
    match m_type(&s, &toks, 0) {
        Ok((v, u)) => if u == toks.len() {
            Some(v)
        } else {
            None
        },
        Err(_) => None,
    }
}

/// Parses the whole of `input` as an attribute.
pub fn attribute(input: &str) -> (r: Option<Attribute>)
    ensures
        opt_agrees(r, whole(p_attribute(input@, lex(input@, 0), 0), lex(input@, 0).len() as int)),
{
    let s = chars_of(input);
    let toks = tokenize(&s);
    let _ = s.len();
    proof {
        crate::lemma_tokens_within(s@, 0);
    }
    match m_attribute(&s, &toks, 0) {
        Ok((v, u)) => if u == toks.len() {
            Some(v)
        } else {
            None
        },
        Err(_) => None,
    }
}

/// Parses the whole of `input` as an enumeration field.
pub fn enumeration_field(input: &str) -> (r: Option<EnumerationField>)
    ensures
        opt_agrees(r, whole(p_enumeration_field(input@, lex(input@, 0), 0), lex(input@, 0).len() as int)),
{
    let s = chars_of(input);
    let toks = tokenize(&s);
    let _ = s.len();
    proof {
        crate::lemma_tokens_within(s@, 0);
    }
    match m_enumeration_field(&s, &toks, 0) {
        Ok((v, u)) => if u == toks.len() {
            Some(v)
        } else {
            None
        },
        Err(_) => None,
    }
}

/// Parses the whole of `input` as an enumeration.
pub fn enumeration(input: &str) -> (r: Option<Enumeration>)
    ensures
        opt_agrees(r, whole(p_enumeration(input@, lex(input@, 0), 0), lex(input@, 0).len() as int)),
{
    let s = chars_of(input);
    let toks = tokenize(&s);
    let _ = s.len();
    proof {
        crate::lemma_tokens_within(s@, 0);
    }
    match m_enumeration(&s, &toks, 0) {
        Ok((v, u)) => if u == toks.len() {
            Some(v)
        } else {
            None
        },
        Err(_) => None,
    }
}

/// Parses the whole of `input` as a structure field.
pub fn structure_field(input: &str) -> (r: Option<StructureField>)
    ensures
        opt_agrees(r, whole(p_structure_field(input@, lex(input@, 0), 0), lex(input@, 0).len() as int)),
{
    let s = chars_of(input);
    let toks = tokenize(&s);
    let _ = s.len();
    proof {
        crate::lemma_tokens_within(s@, 0);
    }
    match m_structure_field(&s, &toks, 0) {
        Ok((v, u)) => if u == toks.len() {
            Some(v)
        } else {
            None
        },
        Err(_) => None,
    }
}

/// Parses the whole of `input` as a structure.
pub fn structure(input: &str) -> (r: Option<Structure>)
    ensures
        opt_agrees(r, whole(p_structure(input@, lex(input@, 0), 0), lex(input@, 0).len() as int)),
{
    let s = chars_of(input);
    let toks = tokenize(&s);
    let _ = s.len();
    proof {
        crate::lemma_tokens_within(s@, 0);
    }
    match m_structure(&s, &toks, 0) {
        Ok((v, u)) => if u == toks.len() {
            Some(v)
        } else {
            None
        },
        Err(_) => None,
    }
}

/// Parses the whole of `input` as a union field.
pub fn union_field(input: &str) -> (r: Option<UnionField>)
    ensures
        opt_agrees(r, whole(p_union_field(input@, lex(input@, 0), 0), lex(input@, 0).len() as int)),
{
    let s = chars_of(input);
    let toks = tokenize(&s);
    let _ = s.len();
    proof {
        crate::lemma_tokens_within(s@, 0);
    }
    match m_union_field(&s, &toks, 0) {
        Ok((v, u)) => if u == toks.len() {
            Some(v)
        } else {
            None
        },
        Err(_) => None,
    }
}

/// Parses the whole of `input` as a union.
pub fn union(input: &str) -> (r: Option<Union>)
    ensures
        opt_agrees(r, whole(p_union(input@, lex(input@, 0), 0), lex(input@, 0).len() as int)),
{
    let s = chars_of(input);
    let toks = tokenize(&s);
    let _ = s.len();
    proof {
        crate::lemma_tokens_within(s@, 0);
    }
    match m_union(&s, &toks, 0) {
        Ok((v, u)) => if u == toks.len() {
            Some(v)
        } else {
            None
        },
        Err(_) => None,
    }
}

/// Parses the whole of `input` as a definition.
pub fn definition(input: &str) -> (r: Option<Definition>)
    ensures
        opt_agrees(r, whole(p_definition(input@, lex(input@, 0), 0), lex(input@, 0).len() as int)),
{
    let s = chars_of(input);
    let toks = tokenize(&s);
    let _ = s.len();
    proof {
        crate::lemma_tokens_within(s@, 0);
    }
    match m_definition(&s, &toks, 0) {
        Ok((v, u)) => if u == toks.len() {
            Some(v)
        } else {
            None
        },
        Err(_) => None,
    }
}

pub open spec fn p_builtin(s: Seq<char>, toks: Seq<Token>, t: int) -> Parsed<BuiltinType> {
    match word_at(s, toks, t) {
        Some(w) => match builtin_named(w) {
            Some(b) => Ok((b, t + 1)),
            None => Err(t),
        },
        None => Err(t),
    }
}

/// Parses the whole of `input` as the name of a built-in type.
pub fn builtin_type(input: &str) -> (r: Option<BuiltinType>)
    ensures
        r == whole(p_builtin(input@, lex(input@, 0), 0), lex(input@, 0).len() as int),
{
    let s = chars_of(input);
    let toks = tokenize(&s);
    let _ = s.len();
    proof {
        crate::lemma_tokens_within(s@, 0);
    }
    if toks.len() != 1 {
        return None;
    }
    match m_word(&s, &toks, 0) {
        Ok((w, _)) => m_builtin_of(&w.name),
        Err(_) => None,
    }
}

/// Parses the whole of `input` as a bracketed list of attributes.
pub fn attributes(input: &str) -> (r: Option<Vec<Attribute>>)
    ensures
        match r {
            Some(v) => whole(p_attributes(input@, lex(input@, 0), 0), lex(input@, 0).len() as int)
                == Some(attributes_view(v@)),
            None => whole(p_attributes(input@, lex(input@, 0), 0), lex(input@, 0).len() as int) is None,
        },
{
    let s = chars_of(input);
    let toks = tokenize(&s);
    let _ = s.len();
    proof {
        crate::lemma_tokens_within(s@, 0);
    }
    match m_attributes(&s, &toks, 0) {
        Ok((v, u)) => if u == toks.len() {
            Some(v)
        } else {
            None
        },
        Err(_) => None,
    }
}

/// Parses `input` as a module: definitions up to the end of the text.
pub fn module(input: &str) -> (r: Option<Module>)
    ensures
        match r {
            Some(m) => p_module(input@, lex(input@, 0), 0, Seq::empty()) matches Ok((ds, _)) && ds
                == m@,
            None => p_module(input@, lex(input@, 0), 0, Seq::empty()) is Err,
        },
{
    let s = chars_of(input);
    let toks = tokenize(&s);
    let _ = s.len();
    proof {
        crate::lemma_tokens_within(s@, 0);
    }
    match m_module(&s, &toks) {
        Ok(m) => Some(m),
        Err(_) => None,
    }
}

} // verus!
