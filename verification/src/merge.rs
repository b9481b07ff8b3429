//! Merging schemas: the structs and file attributes of an imported schema
//! into the schema that imports it, and the structs of several schema files
//! into one.

use vstd::prelude::*;
use crate::ast::{
    str_eq, structs_view, FileAttribute, FileAttributeV, Schema, SchemaV, StructDef, StructDefV,
};
use crate::error::{validation_error, CoreError, ErrorView};
use crate::text::{chars_to_string, push_str, push_string};

verus! {

/// Adds the definitions one by one, stopping at the first whose name the
/// schema already knows: the schema reached, and that name if there is one.
pub open spec fn merge_structs(s: SchemaV, defs: Seq<StructDefV>) -> (SchemaV, Option<Seq<char>>)
    decreases defs.len(),
{
    if defs.len() == 0 {
        (s, None)
    } else if s.lookup(defs[0].name) is Some {
        (s, Some(defs[0].name))
    } else {
        merge_structs(s.add_struct(defs[0]), defs.drop_first())
    }
}

/// Appends each of `extra` that is not yet among the attributes, in order.
pub open spec fn merge_attrs(attrs: Seq<FileAttributeV>, extra: Seq<FileAttributeV>) -> Seq<
    FileAttributeV,
>
    decreases extra.len(),
{
    if extra.len() == 0 {
        attrs
    } else {
        let next = if attrs.contains(extra[0]) {
            attrs
        } else {
            attrs.push(extra[0])
        };
        merge_attrs(next, extra.drop_first())
    }
}

/// `duplicate struct 'NAME' from import 'PATH'`.
pub open spec fn err_duplicate_import(name: Seq<char>, path: Seq<char>) -> ErrorView {
    validation_error("E101"@, "duplicate struct '"@ + name + "' from import '"@ + path + "'"@)
}

/// `duplicate struct 'NAME' across schema files`.
pub open spec fn err_duplicate_across(name: Seq<char>) -> ErrorView {
    validation_error("E101"@, "duplicate struct '"@ + name + "' across schema files"@)
}

/// The schema after importing `imported`: its structs, then its file
/// attributes that are not yet present; or the name of the first struct
/// that is defined twice.
pub open spec fn spec_merge_imported(s: SchemaV, imported: SchemaV) -> Result<SchemaV, Seq<char>> {
    let (t, dup) = merge_structs(s, imported.structs);
    match dup {
        Some(name) => Err(name),
        None => Ok(
            SchemaV {
                file_attributes: merge_attrs(t.file_attributes, imported.file_attributes),
                ..t
            },
        ),
    }
}

/// Merging struct definitions without a duplicate makes each of them found
/// by its name, keeps every struct found before found as it was, and keeps
/// the index valid.
pub proof fn lemma_merge_structs_lookup(s: SchemaV, defs: Seq<StructDefV>)
    requires
        s.index_valid(),
        s.structs.len() + defs.len() < usize::MAX,
    ensures
        merge_structs(s, defs).0.index_valid(),
        merge_structs(s, defs).1 is None ==> forall|i: int|
            0 <= i < defs.len() ==> #[trigger] merge_structs(s, defs).0.lookup(defs[i].name) == Some(
                defs[i],
            ),
        merge_structs(s, defs).1 is None ==> forall|k: Seq<char>|
            #[trigger] s.lookup(k) is Some ==> merge_structs(s, defs).0.lookup(k) == s.lookup(k),
    decreases defs.len(),
{
    if defs.len() > 0 && s.lookup(defs[0].name) is None {
        let d = defs[0];
        let s1 = s.add_struct(d);
        let rest = defs.drop_first();
        crate::ast::lemma_add_struct_lookup(s, d, d.name);
        lemma_merge_structs_lookup(s1, rest);
        let t = merge_structs(s1, rest).0;
        if merge_structs(s, defs).1 is None {
            assert forall|k: Seq<char>| #[trigger] s.lookup(k) is Some implies t.lookup(k)
                == s.lookup(k) by {
                crate::ast::lemma_add_struct_lookup(s, d, k);
                assert(s1.lookup(k) is Some);
            }
            assert forall|i: int| 0 <= i < defs.len() implies #[trigger] t.lookup(defs[i].name)
                == Some(defs[i]) by {
                if i == 0 {
                    assert(s1.lookup(d.name) is Some);
                } else {
                    assert(rest[i - 1] == defs[i]);
                }
            }
        }
    }
}

/// No attribute occurs twice.
pub open spec fn no_repeats(attrs: Seq<FileAttributeV>) -> bool {
    forall|i: int, j: int| 0 <= i < j < attrs.len() ==> attrs[i] != attrs[j]
}

/// Merging file attributes keeps those present, in order, adds every new
/// one, and adds nothing twice: without repeats before, there are none
/// after.
pub proof fn lemma_merge_attrs(attrs: Seq<FileAttributeV>, extra: Seq<FileAttributeV>)
    ensures
        merge_attrs(attrs, extra).len() >= attrs.len(),
        merge_attrs(attrs, extra).subrange(0, attrs.len() as int) == attrs,
        forall|a: FileAttributeV|
            #[trigger] merge_attrs(attrs, extra).contains(a) <==> (attrs.contains(a)
                || extra.contains(a)),
        no_repeats(attrs) ==> no_repeats(merge_attrs(attrs, extra)),
    decreases extra.len(),
{
    if extra.len() > 0 {
        let e = extra[0];
        let next = if attrs.contains(e) {
            attrs
        } else {
            attrs.push(e)
        };
        lemma_merge_attrs(next, extra.drop_first());
        let m = merge_attrs(next, extra.drop_first());
        assert(m == merge_attrs(attrs, extra));
        assert(m.subrange(0, attrs.len() as int) =~= attrs) by {
            assert(m.subrange(0, next.len() as int) == next);
            assert(next.subrange(0, attrs.len() as int) =~= attrs);
            assert(m.subrange(0, attrs.len() as int) =~= m.subrange(0, next.len() as int).subrange(
                0,
                attrs.len() as int,
            ));
        }
        assert forall|a: FileAttributeV| #[trigger] m.contains(a) <==> (attrs.contains(a)
            || extra.contains(a)) by {
            if extra.drop_first().contains(a) {
                let k = choose|k: int| 0 <= k < extra.drop_first().len() && extra.drop_first()[k] == a;
                assert(extra[k + 1] == a);
            }
            if extra.contains(a) && a != e {
                let k = choose|k: int| 0 <= k < extra.len() && extra[k] == a;
                assert(k != 0);
                assert(extra.drop_first()[k - 1] == a);
            }
            if next.contains(a) && !attrs.contains(a) {
                assert(a == e);
                assert(extra[0] == a);
            }
            if attrs.contains(a) {
                let k = choose|k: int| 0 <= k < attrs.len() && attrs[k] == a;
                assert(next[k] == a);
            }
            if a == e && !attrs.contains(a) {
                assert(next[attrs.len() as int] == a);
            }
        }
        if no_repeats(attrs) {
            assert(no_repeats(next)) by {
                if !attrs.contains(e) {
                    assert forall|i: int, j: int| 0 <= i < j < next.len() implies next[i] != next[j] by {
                        if j == attrs.len() {
                            assert(next[i] == attrs[i]);
                        }
                    }
                }
            }
        }
    } else {
        assert(attrs.subrange(0, attrs.len() as int) =~= attrs);
    }
}

/// Whether two file attributes are equal.
fn file_attr_eq(a: &FileAttribute, b: &FileAttribute) -> (r: bool)
    ensures
        r == (a@ == b@),
{
    match (a, b) {
        (FileAttribute::Version(x), FileAttribute::Version(y)) => str_eq(x.as_str(), y.as_str()),
        (FileAttribute::Endian(x), FileAttribute::Endian(y)) => *x == *y,
        (FileAttribute::ImportPath(x), FileAttribute::ImportPath(y)) => str_eq(
            x.as_str(),
            y.as_str(),
        ),
        (FileAttribute::Doc(x), FileAttribute::Doc(y)) => str_eq(x.as_str(), y.as_str()),
        (FileAttribute::PrefixDisabled, FileAttribute::PrefixDisabled) => true,
        _ => false,
    }
}

/// Whether the schema already holds the file attribute.
fn has_file_attribute(schema: &Schema, attr: &FileAttribute) -> (r: bool)
    ensures
        r == schema@.file_attributes.contains(attr@),
{
    let mut i: usize = 0;
    while i < schema.file_attributes.len()
        invariant
            i <= schema.file_attributes@.len(),
            schema@.file_attributes.len() == schema.file_attributes@.len(),
            forall|j: int| 0 <= j < i ==> schema@.file_attributes[j] != attr@,
        decreases schema.file_attributes@.len() - i,
    {
        if file_attr_eq(&schema.file_attributes[i], attr) {
            proof {
                assert(schema@.file_attributes[i as int] == attr@);
            }
            return true;
        }
        i = i + 1;
    }
    false
}

/// Adds the struct definitions in order, stopping at the first whose name is
/// already taken; returns that definition's name.
fn add_structs(schema: &mut Schema, defs: Vec<StructDef>) -> (dup: Option<String>)
    ensures
        merge_structs(old(schema)@, structs_view(defs@)) == (
            final(schema)@,
            match dup {
                Some(n) => Some(n@),
                None => None::<Seq<char>>,
            },
        ),
{
    let ghost all = structs_view(defs@);
    let mut rest = defs;
    let mut dup: Option<String> = None;
    while dup.is_none() && rest.len() > 0
        invariant
            match dup {
                None => merge_structs(old(schema)@, all) == merge_structs(
                    schema@,
                    structs_view(rest@),
                ),
                Some(n) => merge_structs(old(schema)@, all) == (schema@, Some(n@)),
            },
        decreases rest@.len(),
    {
        let ghost dv = structs_view(rest@);
        let def = rest.remove(0);
        proof {
            assert(dv[0] == def@);
            assert(dv.drop_first() =~= structs_view(rest@));
        }
        if schema.get_struct(def.name.as_str()).is_some() {
            proof {
                assert(merge_structs(schema@, dv) == (schema@, Some(def@.name)));
            }
            dup = Some(def.name);
        } else {
            proof {
                assert(merge_structs(schema@, dv) == merge_structs(
                    schema@.add_struct(def@),
                    dv.drop_first(),
                ));
            }
            schema.add_struct(def);
        }
    }
    dup
}

/// Merges a schema loaded from an import into the importing schema: adds
/// its structs, then its file attributes that are not present yet. Fails
/// when a struct name is defined twice (`E101`).
pub fn merge_imported(schema: &mut Schema, imported: Schema, import_path: &str) -> (r: Result<
    (),
    CoreError,
>)
    ensures
        match spec_merge_imported(old(schema)@, imported@) {
            Ok(s) => r is Ok && final(schema)@ == s,
            Err(name) => r matches Err(e) && e@ == err_duplicate_import(name, import_path@)
                && final(schema)@ == merge_structs(old(schema)@, imported@.structs).0,
        },
{
    let Schema { file_attributes, imports: _, structs, struct_map: _ } = imported;
    let ghost av = imported@.file_attributes;
    match add_structs(schema, structs) {
        Some(name) => {
            let mut m: Vec<char> = Vec::new();
            push_str(&mut m, "duplicate struct '");
            push_string(&mut m, &name);
            push_str(&mut m, "' from import '");
            push_str(&mut m, import_path);
            push_str(&mut m, "'");
            let msg = chars_to_string(m.as_slice());
            return Err(CoreError::validation("E101", msg.as_str()));
        },
        None => {},
    }
    let ghost mid = schema@;
    let mut rest = file_attributes;
    proof {
        assert(av == rest@.map_values(|a: FileAttribute| a@));
    }
    while rest.len() > 0
        invariant
            merge_attrs(mid.file_attributes, av) == merge_attrs(
                schema@.file_attributes,
                rest@.map_values(|a: FileAttribute| a@),
            ),
            schema@ == (SchemaV { file_attributes: schema@.file_attributes, ..mid }),
        decreases rest@.len(),
    {
        let ghost rv = rest@.map_values(|a: FileAttribute| a@);
        let attr = rest.remove(0);
        proof {
            assert(rv[0] == attr@);
            assert(rv.drop_first() =~= rest@.map_values(|a: FileAttribute| a@));
        }
        if !has_file_attribute(schema, &attr) {
            schema.add_file_attribute(attr);
        }
    }
    Ok(())
}

/// Adds the structs of one more schema file to the merged schema. Fails
/// when a struct name is defined twice (`E101`).
pub fn merge_loaded(merged: &mut Schema, schema: Schema) -> (r: Result<(), CoreError>)
    ensures
        final(merged)@ == merge_structs(old(merged)@, schema@.structs).0,
        match merge_structs(old(merged)@, schema@.structs).1 {
            None => r is Ok,
            Some(name) => r matches Err(e) && e@ == err_duplicate_across(name),
        },
{
    let Schema { file_attributes: _, imports: _, structs, struct_map: _ } = schema;
    match add_structs(merged, structs) {
        Some(name) => {
            let mut m: Vec<char> = Vec::new();
            push_str(&mut m, "duplicate struct '");
            push_string(&mut m, &name);
            push_str(&mut m, "' across schema files");
            let msg = chars_to_string(m.as_slice());
            Err(CoreError::validation("E101", msg.as_str()))
        },
        None => Ok(()),
    }
}

} // verus!
