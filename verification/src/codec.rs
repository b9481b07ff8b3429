//! The codec of one struct of a schema: encoding `#[send]` structs from
//! their field values and decoding `#[receive]` structs from bytes.

use vstd::prelude::*;
use crate::ast::{Endianness, Schema, SchemaV, StructDef, StructDefV};
use crate::decoded::DecodedStructV;
use crate::encode::{
    bytes_result, encode_top, own_bindings_exec, spec_encode,
};
use crate::error::{validation_error, CoreError, ErrorView};
use crate::messages::make_err_named;
use crate::receive::{decode_struct, spec_decode_struct, struct_result_view};
use crate::decoded::DecodedStruct;
use crate::text::{chars_to_string, push_str, push_string};

verus! {

/// An encoder and decoder for one struct of a schema.
pub struct Codec<'a> {
    schema: &'a Schema,
    struct_def: &'a StructDef,
    default_endian: Endianness,
}

/// The mathematical content of a [`Codec`]: the schema, the struct, and the
/// byte order used where the struct and its fields name none.
pub struct CodecV {
    pub schema: SchemaV,
    pub def: StructDefV,
    pub default_endian: Endianness,
}

impl<'a> View for Codec<'a> {
    type V = CodecV;

    closed spec fn view(&self) -> CodecV {
        CodecV { schema: self.schema@, def: self.struct_def@, default_endian: self.default_endian }
    }
}

/// `struct 'NAME' not found`, with code `E001`.
pub open spec fn err_struct_not_found(name: Seq<char>) -> ErrorView {
    validation_error("E001"@, "struct '"@ + name + "' not found"@)
}

impl CodecV {
    /// Encoding terminates without a panic within some nesting budget.
    pub open spec fn encodable(self) -> bool {
        exists|fuel: nat| spec_encode(self.def, self.schema, self.default_endian, fuel) is Some
    }

    /// What encoding gives, within a nesting budget where it terminates.
    pub open spec fn encoding(self) -> Option<Result<Seq<u8>, ErrorView>> {
        spec_encode(
            self.def,
            self.schema,
            self.default_endian,
            choose|fuel: nat| spec_encode(self.def, self.schema, self.default_endian, fuel) is Some,
        )
    }

    /// Decoding `data` terminates without a panic within some nesting budget.
    pub open spec fn decodable(self, data: Seq<u8>) -> bool {
        exists|fuel: nat|
            spec_decode_struct(data, self.def, self.schema, self.default_endian, fuel) is Some
    }

    /// What decoding `data` gives, within a nesting budget where it terminates.
    pub open spec fn decoding(self, data: Seq<u8>) -> Option<Result<DecodedStructV, ErrorView>> {
        spec_decode_struct(
            data,
            self.def,
            self.schema,
            self.default_endian,
            choose|fuel: nat|
                spec_decode_struct(data, self.def, self.schema, self.default_endian, fuel) is Some,
        )
    }
}

fn make_err_struct_not_found(name: &str) -> (e: CoreError)
    ensures
        e@ == err_struct_not_found(name@),
{
    let mut m: Vec<char> = Vec::new();
    push_str(&mut m, "struct '");
    push_str(&mut m, name);
    push_str(&mut m, "' not found");
    let s = chars_to_string(m.as_slice());
    CoreError::validation("E001", s.as_str())
}

impl<'a> Codec<'a> {
    /// Builds the codec of the struct `struct_name`, in the file's default
    /// byte order.
    pub fn compile(schema: &'a Schema, struct_name: &str) -> (r: Result<Codec<'a>, CoreError>)
        ensures
            match schema@.lookup(struct_name@) {
                Some(d) => r matches Ok(c) && c@ == (CodecV {
                    schema: schema@,
                    def: d,
                    default_endian: schema@.default_endian(),
                }),
                None => r matches Err(e) && e@ == err_struct_not_found(struct_name@),
            },
    {
        match schema.get_struct(struct_name) {
            None => Err(make_err_struct_not_found(struct_name)),
            Some(def) => {
                let default_endian = schema.default_endian();
                Ok(Codec { schema, struct_def: def, default_endian })
            },
        }
    }

    /// Builds the codec of the struct `struct_name` with the given default
    /// byte order.
    pub fn compile_with_endian(schema: &'a Schema, struct_name: &str, endian: Endianness) -> (r:
        Result<Codec<'a>, CoreError>)
        ensures
            match schema@.lookup(struct_name@) {
                Some(d) => r matches Ok(c) && c@ == (CodecV {
                    schema: schema@,
                    def: d,
                    default_endian: endian,
                }),
                None => r matches Err(e) && e@ == err_struct_not_found(struct_name@),
            },
    {
        match schema.get_struct(struct_name) {
            None => Err(make_err_struct_not_found(struct_name)),
            Some(def) => Ok(Codec { schema, struct_def: def, default_endian: endian }),
        }
    }

    /// The definition of the codec's struct.
    pub fn struct_def(&self) -> (d: &'a StructDef)
        ensures
            d@ == self@.def,
    {
        self.struct_def
    }

    /// Encodes the `#[send]` struct from the values its fields hold.
    pub fn encode(&self) -> (r: Result<Vec<u8>, CoreError>)
        requires
            self@.encodable(),
        ensures
            bytes_result(r, self@.encoding()),
    {
        let ghost fuel = choose|fuel: nat|
            spec_encode(self@.def, self@.schema, self@.default_endian, fuel) is Some;
        let def = self.struct_def;
        let is_send = match def.direction {
            Some(crate::ast::Direction::Send) => true,
            _ => false,
        };
        if !is_send {
            return Err(make_err_named("encode", "struct '", &def.name, "' is not a send type"));
        }
        let fv = own_bindings_exec(&def.fields);
        let endian = match def.endian {
            Some(e) => e,
            None => self.default_endian,
        };
        encode_top(def, &fv, endian, self.schema, Ghost(fuel))
    }

    /// Decodes bytes as the `#[receive]` struct.
    pub fn decode(&self, data: &[u8]) -> (r: Result<DecodedStruct, CoreError>)
        requires
            self@.decodable(data@),
        ensures
            self@.decoding(data@) == Some(struct_result_view(r)),
    {
        let ghost fuel = choose|fuel: nat|
            spec_decode_struct(data@, self@.def, self@.schema, self@.default_endian, fuel) is Some;
        decode_struct(data, self.struct_def, self.schema, self.default_endian, Ghost(fuel))
    }
}

} // verus!
