//! Dispatch from a schema field declaration to the concrete index
//! variant(s) serving that field: a frozen (file-backed) engine where a
//! frozen-index directory is given and the type supports it, an appendable
//! sibling otherwise. The surrounding program turns each descriptor into a
//! live handle over its backing store.

use vstd::prelude::*;

verus! {

/// How text is split into tokens by the full-text sibling.
#[derive(Clone, Copy, PartialEq, Eq, Structural, Debug)]
pub enum TokenizerType {
    Prefix,
    Whitespace,
    Word,
    Multilingual,
}

/// Tokenizer configuration carried by a text schema into its index.
#[derive(Clone, Copy, PartialEq, Eq, Structural, Debug)]
pub struct TextIndexParams {
    pub tokenizer: TokenizerType,
    pub lowercase: bool,
}

/// A field's declared schema, as far as index dispatch reads it.
#[derive(Clone, Copy, PartialEq, Eq, Structural, Debug)]
pub enum PayloadSchemaParams {
    Keyword,
    Integer { lookup: bool, range: bool },
    Float,
    Geo,
    Text(TextIndexParams),
    Bool,
    Datetime,
    Uuid,
}

/// Where a numeric (range) index keeps its data: a frozen directory, or the
/// appendable backing store under a column name.
pub enum NumericIndexRef {
    Mmap { dir: String },
    Appendable { column: String, is_appendable: bool },
}

/// A fully decided index variant for one field.
pub enum FieldIndex {
    KeywordIndex { column: String, is_appendable: bool },
    IntMapIndex { column: String, is_appendable: bool },
    IntIndex(NumericIndexRef),
    FloatIndex(NumericIndexRef),
    GeoIndex { column: String, is_appendable: bool },
    FullTextIndex { column: String, params: TextIndexParams, is_appendable: bool },
    BinaryIndex { column: String },
    DatetimeIndex(NumericIndexRef),
    UuidIndex(NumericIndexRef),
}

/// An index builder variant for the construction pipeline.
pub enum FieldIndexBuilder {
    KeywordIndex { column: String },
    IntMapIndex { column: String },
    IntIndex { column: String },
    IntMmapIndex { dir: String },
    FloatIndex { column: String },
    FloatMmapIndex { dir: String },
    GeoIndex { column: String },
    FullTextIndex { column: String, params: TextIndexParams },
    BinaryIndex { column: String },
    DatetimeIndex { column: String },
    DatetimeMmapIndex { dir: String },
    UuidIndex { column: String },
    UuidMmapIndex { dir: String },
}

/// The numeric reference the selector hands out: frozen when a directory is
/// given, appendable otherwise.
pub open spec fn numeric_ref_matches(
    r: NumericIndexRef,
    mmap_dir: Option<Seq<char>>,
    column: Seq<char>,
    is_appendable: bool,
) -> bool {
    match mmap_dir {
        Some(d) => r matches NumericIndexRef::Mmap { dir } && dir@ == d,
        None => r matches NumericIndexRef::Appendable {
            column: c,
            is_appendable: a,
        } && c@ == column && a == is_appendable,
    }
}

fn numeric_ref(column: &String, mmap_index_dir: &Option<String>, is_appendable: bool) -> (r:
    NumericIndexRef)
    ensures
        numeric_ref_matches(
            r,
            (match *mmap_index_dir {
                Some(d) => Some(d@),
                None => None,
            }),
            column@,
            is_appendable,
        ),
{
    match mmap_index_dir {
        Some(dir) => NumericIndexRef::Mmap { dir: dir.clone() },
        None => NumericIndexRef::Appendable { column: column.clone(), is_appendable },
    }
}

/// Selects the index variant(s) for a field, per the dispatch table: keyword,
/// geo, text and boolean fields get their appendable sibling; float, datetime
/// and UUID fields get one numeric index, frozen when a directory is given;
/// an integer field gets a lookup map index and/or a numeric range index as
/// its flags ask, the lookup one first.
pub fn index_selector(
    field: &String,
    payload_schema: &PayloadSchemaParams,
    mmap_index_dir: &Option<String>,
    is_appendable: bool,
) -> (r: Result<Vec<FieldIndex>, crate::OperationError>)
    ensures
        r is Ok,
        ({
            let out = r->Ok_0@;
            let dir = (match *mmap_index_dir {
                Some(d) => Some(d@),
                None => None,
            });
            match *payload_schema {
                PayloadSchemaParams::Keyword => out.len() == 1 && (out[0] matches
                    FieldIndex::KeywordIndex { column, is_appendable: a } && column@ == field@ && a
                    == is_appendable),
                PayloadSchemaParams::Integer { lookup, range } => {
                    &&& out.len() == (if lookup { 1int } else { 0int }) + (if range {
                        1int
                    } else {
                        0int
                    })
                    &&& lookup ==> (out[0] matches FieldIndex::IntMapIndex {
                        column,
                        is_appendable: a,
                    } && column@ == field@ && a == is_appendable)
                    &&& range ==> (out[out.len() - 1] matches FieldIndex::IntIndex(n)
                        && numeric_ref_matches(n, dir, field@, is_appendable))
                },
                PayloadSchemaParams::Float => out.len() == 1 && (out[0] matches
                    FieldIndex::FloatIndex(n) && numeric_ref_matches(
                    n,
                    dir,
                    field@,
                    is_appendable,
                )),
                PayloadSchemaParams::Geo => out.len() == 1 && (out[0] matches
                    FieldIndex::GeoIndex { column, is_appendable: a } && column@ == field@ && a
                    == is_appendable),
                PayloadSchemaParams::Text(params) => out.len() == 1 && (out[0] matches
                    FieldIndex::FullTextIndex { column, params: p, is_appendable: a } && column@
                    == field@ && p == params && a == is_appendable),
                PayloadSchemaParams::Bool => out.len() == 1 && (out[0] matches
                    FieldIndex::BinaryIndex { column } && column@ == field@),
                PayloadSchemaParams::Datetime => out.len() == 1 && (out[0] matches
                    FieldIndex::DatetimeIndex(n) && numeric_ref_matches(
                    n,
                    dir,
                    field@,
                    is_appendable,
                )),
                PayloadSchemaParams::Uuid => out.len() == 1 && (out[0] matches
                    FieldIndex::UuidIndex(n) && numeric_ref_matches(n, dir, field@, is_appendable)),
            }
        }),
{
    let mut out: Vec<FieldIndex> = Vec::new();
    match payload_schema {
        PayloadSchemaParams::Keyword => {
            out.push(
                FieldIndex::KeywordIndex { column: field.clone(), is_appendable },
            );
        },
        PayloadSchemaParams::Integer { lookup, range } => {
            if *lookup {
                out.push(
                    FieldIndex::IntMapIndex { column: field.clone(), is_appendable },
                );
            }
            if *range {
                out.push(FieldIndex::IntIndex(numeric_ref(field, mmap_index_dir, is_appendable)));
            }
        },
        PayloadSchemaParams::Float => {
            out.push(FieldIndex::FloatIndex(numeric_ref(field, mmap_index_dir, is_appendable)));
        },
        PayloadSchemaParams::Geo => {
            out.push(FieldIndex::GeoIndex { column: field.clone(), is_appendable });
        },
        PayloadSchemaParams::Text(params) => {
            out.push(
                FieldIndex::FullTextIndex {
                    column: field.clone(),
                    params: *params,
                    is_appendable,
                },
            );
        },
        PayloadSchemaParams::Bool => {
            out.push(FieldIndex::BinaryIndex { column: field.clone() });
        },
        PayloadSchemaParams::Datetime => {
            out.push(FieldIndex::DatetimeIndex(numeric_ref(field, mmap_index_dir, is_appendable)));
        },
        PayloadSchemaParams::Uuid => {
            out.push(FieldIndex::UuidIndex(numeric_ref(field, mmap_index_dir, is_appendable)));
        },
    }
    Ok(out)
}

/// Selects the builder variant(s) for a field: the same decision table as
/// `index_selector`, handing out unopened builders instead. The caller must
/// ensure the frozen-index directory exists before using a frozen builder;
/// that side effect is the surrounding program's, and its failure is a
/// recoverable error there, never an abort here.
pub fn index_builder_selector(
    field: &String,
    payload_schema: &PayloadSchemaParams,
    mmap_index_dir: &Option<String>,
) -> (r: Vec<FieldIndexBuilder>)
    ensures
        ({
            let out = r@;
            let frozen = mmap_index_dir is Some;
            let dir = (match *mmap_index_dir {
                Some(d) => Some(d@),
                None => None,
            });
            match *payload_schema {
                PayloadSchemaParams::Keyword => out.len() == 1 && (out[0] matches
                    FieldIndexBuilder::KeywordIndex { column } && column@ == field@),
                PayloadSchemaParams::Integer { lookup, range } => {
                    &&& out.len() == (if lookup { 1int } else { 0int }) + (if range {
                        1int
                    } else {
                        0int
                    })
                    &&& lookup ==> (out[0] matches FieldIndexBuilder::IntMapIndex { column }
                        && column@ == field@)
                    &&& (range && frozen) ==> (out[out.len() - 1] matches
                        FieldIndexBuilder::IntMmapIndex { dir: d } && d@ == dir->Some_0)
                    &&& (range && !frozen) ==> (out[out.len() - 1] matches
                        FieldIndexBuilder::IntIndex { column } && column@ == field@)
                },
                PayloadSchemaParams::Float => out.len() == 1 && (if frozen {
                    out[0] matches FieldIndexBuilder::FloatMmapIndex { dir: d } && d@
                        == dir->Some_0
                } else {
                    out[0] matches FieldIndexBuilder::FloatIndex { column } && column@ == field@
                }),
                PayloadSchemaParams::Geo => out.len() == 1 && (out[0] matches
                    FieldIndexBuilder::GeoIndex { column } && column@ == field@),
                PayloadSchemaParams::Text(params) => out.len() == 1 && (out[0] matches
                    FieldIndexBuilder::FullTextIndex { column, params: p } && column@ == field@
                    && p == params),
                PayloadSchemaParams::Bool => out.len() == 1 && (out[0] matches
                    FieldIndexBuilder::BinaryIndex { column } && column@ == field@),
                PayloadSchemaParams::Datetime => out.len() == 1 && (if frozen {
                    out[0] matches FieldIndexBuilder::DatetimeMmapIndex { dir: d } && d@
                        == dir->Some_0
                } else {
                    out[0] matches FieldIndexBuilder::DatetimeIndex { column } && column@ == field@
                }),
                PayloadSchemaParams::Uuid => out.len() == 1 && (if frozen {
                    out[0] matches FieldIndexBuilder::UuidMmapIndex { dir: d } && d@
                        == dir->Some_0
                } else {
                    out[0] matches FieldIndexBuilder::UuidIndex { column } && column@ == field@
                }),
            }
        }),
{
    let mut out: Vec<FieldIndexBuilder> = Vec::new();
    match payload_schema {
        PayloadSchemaParams::Keyword => {
            out.push(FieldIndexBuilder::KeywordIndex { column: field.clone() });
        },
        PayloadSchemaParams::Integer { lookup, range } => {
            if *lookup {
                out.push(FieldIndexBuilder::IntMapIndex { column: field.clone() });
            }
            if *range {
                match mmap_index_dir {
                    Some(dir) => {
                        out.push(FieldIndexBuilder::IntMmapIndex { dir: dir.clone() });
                    },
                    None => {
                        out.push(FieldIndexBuilder::IntIndex { column: field.clone() });
                    },
                }
            }
        },
        PayloadSchemaParams::Float => {
            match mmap_index_dir {
                Some(dir) => {
                    out.push(FieldIndexBuilder::FloatMmapIndex { dir: dir.clone() });
                },
                None => {
                    out.push(FieldIndexBuilder::FloatIndex { column: field.clone() });
                },
            }
        },
        PayloadSchemaParams::Geo => {
            out.push(FieldIndexBuilder::GeoIndex { column: field.clone() });
        },
        PayloadSchemaParams::Text(params) => {
            out.push(
                FieldIndexBuilder::FullTextIndex { column: field.clone(), params: *params },
            );
        },
        PayloadSchemaParams::Bool => {
            out.push(FieldIndexBuilder::BinaryIndex { column: field.clone() });
        },
        PayloadSchemaParams::Datetime => {
            match mmap_index_dir {
                Some(dir) => {
                    out.push(FieldIndexBuilder::DatetimeMmapIndex { dir: dir.clone() });
                },
                None => {
                    out.push(FieldIndexBuilder::DatetimeIndex { column: field.clone() });
                },
            }
        },
        PayloadSchemaParams::Uuid => {
            match mmap_index_dir {
                Some(dir) => {
                    out.push(FieldIndexBuilder::UuidMmapIndex { dir: dir.clone() });
                },
                None => {
                    out.push(FieldIndexBuilder::UuidIndex { column: field.clone() });
                },
            }
        },
    }
    out
}

} // verus!
